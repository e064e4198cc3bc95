use vstd::prelude::*;

verus! {

/// One permission of an access policy: the effect it has on which actions
/// over which resources.
#[derive(Debug)]
pub struct PermissionDTO {
    resources: Vec<String>,
    effect: String,
    actions: Vec<String>,
}

impl PermissionDTO {
    pub fn new(resources: Vec<String>, effect: String, actions: Vec<String>) -> (r: PermissionDTO)
        ensures
            r.resources() == resources@,
            r.effect() == effect@,
            r.actions() == actions@,
    {
        PermissionDTO { resources, effect, actions }
    }

    pub closed spec fn resources(&self) -> Seq<String> {
        self.resources@
    }

    pub closed spec fn effect(&self) -> Seq<char> {
        self.effect@
    }

    pub closed spec fn actions(&self) -> Seq<String> {
        self.actions@
    }

    pub fn get_resources(&self) -> (r: &Vec<String>)
        ensures
            r@ == self.resources(),
    {
        &self.resources
    }

    pub fn get_effect(&self) -> (r: &String)
        ensures
            r@ == self.effect(),
    {
        &self.effect
    }

    pub fn get_actions(&self) -> (r: &Vec<String>)
        ensures
            r@ == self.actions(),
    {
        &self.actions
    }
}

} // verus!
