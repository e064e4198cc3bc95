use dcm_content::records::{CreateField, CreateRole, CreateSite};

#[test]
fn new_field_takes_its_slug_from_its_name() {
    let f = CreateField::new("Hero Image!", 7, 9);
    assert_eq!(f.name, "Hero Image!");
    assert_eq!(f.slug, "hero-image");
    assert_eq!(f.parent_id, 7);
    assert_eq!(f.content_component_id, 9);
}

#[test]
fn new_role_and_site_take_their_slugs_from_their_names() {
    let r = CreateRole::new("Default Admin Role", None);
    assert_eq!(r.slug, "default-admin-role");
    assert_eq!(r.site_id, None);
    let s = CreateSite::new("Ada's  Notes & Letters");
    assert_eq!(s.slug, "ada-s-notes-letters");
    assert_eq!(s.name, "Ada's  Notes & Letters");
}
