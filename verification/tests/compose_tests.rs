use rcms::errors::CmsError;
use rcms::module_models::{Module, ModuleCategory, ModuleCategoryDTO, ModuleDTO, MutModule, MutModuleCategory};
use rcms::page_models::{MutPage, Page};
use rcms::store::Store;

fn add_page(s: &mut Store, uuid: &str, url: &str, title: &str) {
    let new = MutPage {
        id: None,
        uuid: Some(uuid.to_string()),
        page_name: title.to_lowercase(),
        page_url: url.to_string(),
        page_title: title.to_string(),
    };
    assert_eq!(Page::create(s, &new, 0), Ok(1));
}

fn add_category(s: &mut Store, uuid: &str, title: &str, page_id: i32) {
    let new = MutModuleCategory {
        id: None,
        uuid: Some(uuid.to_string()),
        title: title.to_string(),
        page_id,
    };
    assert_eq!(ModuleCategory::create(s, &new), Ok(1));
}

fn add_module(s: &mut Store, uuid: &str, title: &str, page_id: i32, category: Option<i32>) {
    let new = MutModule {
        id: None,
        uuid: Some(uuid.to_string()),
        module_type_id: 1,
        title: title.to_string(),
        page_id,
        content: format!("content of {}", title),
        category,
    };
    assert_eq!(Module::create(s, &new), Ok(1));
}

#[test]
fn edit_view_of_page_without_modules_is_empty() {
    let mut s = Store::new();
    add_page(&mut s, "p1", "/home", "Home");
    add_category(&mut s, "c1", "Gallery", 1);
    let dto = Page::read_one_join_on(&s, "p1".to_string()).unwrap();
    assert_eq!(dto.fields.modules.len(), 0);
    // a category that no module references is not reachable by the join
    assert_eq!(dto.fields.categories.unwrap().len(), 0);
}

#[test]
fn edit_view_scenario_one_uncategorized_one_categorized() {
    let mut s = Store::new();
    add_page(&mut s, "p1", "/home", "Home");
    add_category(&mut s, "c1", "Gallery", 1);
    add_module(&mut s, "m1", "Intro", 1, None);
    add_module(&mut s, "m2", "Img1", 1, Some(1));
    let dto = Page::read_one_join_on(&s, "p1".to_string()).unwrap();
    assert_eq!(dto.guid, "p1");
    assert_eq!(dto.page_url, "/home");
    assert_eq!(dto.fields.modules.len(), 1);
    assert_eq!(dto.fields.modules[0].uuid, "m1");
    assert_eq!(dto.fields.modules[0].title, "Intro");
    let cats = dto.fields.categories.unwrap();
    assert_eq!(cats.len(), 1);
    assert_eq!(cats[0].uuid, "c1");
    assert_eq!(cats[0].title, "Gallery");
    assert_eq!(cats[0].modules.len(), 1);
    assert_eq!(cats[0].modules[0].uuid, "m2");
    assert_eq!(cats[0].modules[0].title, "Img1");
}

#[test]
fn edit_view_missing_page_is_not_found() {
    let mut s = Store::new();
    add_page(&mut s, "p1", "/home", "Home");
    assert_eq!(
        Page::read_one_join_on(&s, "p2".to_string()).unwrap_err(),
        CmsError::NotFound
    );
    assert_eq!(
        Page::read_one_join_on_url(&s, "/nope".to_string()).unwrap_err(),
        CmsError::NotFound
    );
}

#[test]
fn uncategorized_module_never_in_a_bucket() {
    let mut s = Store::new();
    add_page(&mut s, "p1", "/home", "Home");
    add_category(&mut s, "c1", "Gallery", 1);
    add_category(&mut s, "c2", "News", 1);
    add_module(&mut s, "m1", "Free", 1, None);
    add_module(&mut s, "m2", "Img", 1, Some(1));
    add_module(&mut s, "m3", "Story", 1, Some(2));
    let dto = Page::read_one_join_on(&s, "p1".to_string()).unwrap();
    assert!(dto.fields.modules.iter().any(|m| m.uuid == "m1"));
    for cat in dto.fields.categories.unwrap() {
        assert!(cat.modules.iter().all(|m| m.uuid != "m1"));
    }
}

#[test]
fn category_referenced_twice_appears_once() {
    let mut s = Store::new();
    add_page(&mut s, "p1", "/home", "Home");
    add_category(&mut s, "c1", "Gallery", 1);
    add_module(&mut s, "m1", "Img1", 1, Some(1));
    add_module(&mut s, "m2", "Img2", 1, Some(1));
    let dto = Page::read_one_join_on(&s, "p1".to_string()).unwrap();
    let cats = dto.fields.categories.unwrap();
    assert_eq!(cats.len(), 1);
    assert_eq!(cats[0].modules.len(), 2);
    assert_eq!(cats[0].modules[0].uuid, "m1");
    assert_eq!(cats[0].modules[1].uuid, "m2");
}

#[test]
fn grouping_covers_every_page_module_exactly_once() {
    let mut s = Store::new();
    add_page(&mut s, "p1", "/home", "Home");
    add_page(&mut s, "p2", "/other", "Other");
    add_category(&mut s, "c1", "Gallery", 1);
    add_category(&mut s, "c2", "News", 1);
    add_module(&mut s, "m1", "FreeA", 1, None);
    add_module(&mut s, "m2", "FreeB", 1, None);
    add_module(&mut s, "m3", "Img1", 1, Some(1));
    add_module(&mut s, "m4", "Img2", 1, Some(1));
    add_module(&mut s, "m5", "Story", 1, Some(2));
    // a module of another page must stay out of this page's view
    add_module(&mut s, "m6", "Elsewhere", 2, None);
    let dto = Page::read_one_join_on(&s, "p1".to_string()).unwrap();
    let mut seen: Vec<String> = dto.fields.modules.iter().map(|m| m.uuid.clone()).collect();
    for cat in dto.fields.categories.unwrap() {
        for m in &cat.modules {
            seen.push(m.uuid.clone());
        }
    }
    seen.sort();
    let expected: Vec<String> =
        ["m1", "m2", "m3", "m4", "m5"].iter().map(|u| u.to_string()).collect();
    assert_eq!(seen, expected);
}

#[test]
fn display_view_lists_all_page_modules_unfiltered() {
    let mut s = Store::new();
    add_page(&mut s, "p1", "/home", "Home");
    add_category(&mut s, "c1", "Gallery", 1);
    add_module(&mut s, "m1", "Free", 1, None);
    add_module(&mut s, "m2", "Img", 1, Some(1));
    // the editing view pre-splits: only the uncategorized module
    let edit = Page::read_one_join_on(&s, "p1".to_string()).unwrap();
    assert_eq!(edit.fields.modules.len(), 1);
    // the display view, keyed by URL, fetches all modules of the page
    let (page, fields) = Page::read_one_join_on_url(&s, "/home".to_string()).unwrap();
    assert_eq!(page.guid, "p1");
    assert_eq!(fields.modules.len(), 2);
    assert_eq!(fields.modules[0].uuid, "m1");
    assert_eq!(fields.modules[1].uuid, "m2");
    let cats = fields.categories.unwrap();
    assert_eq!(cats.len(), 1);
    assert_eq!(cats[0].modules.len(), 1);
    assert_eq!(cats[0].modules[0].uuid, "m2");
}

#[test]
fn dangling_category_reference_is_dropped_by_the_join() {
    let mut s = Store::new();
    add_page(&mut s, "p1", "/home", "Home");
    // module references category id 9, which no category row carries
    add_module(&mut s, "m1", "Ghostly", 1, Some(9));
    let dto = Page::read_one_join_on(&s, "p1".to_string()).unwrap();
    assert_eq!(dto.fields.modules.len(), 0);
    assert_eq!(dto.fields.categories.unwrap().len(), 0);
}

#[test]
fn module_dto_conversions_keep_fields() {
    let m = Module {
        id: 4,
        uuid: "m4".to_string(),
        module_type_id: 2,
        title: "Banner".to_string(),
        page_id: 1,
        content: "bytes".to_string(),
        category: None,
    };
    let d = ModuleDTO::from(m);
    assert_eq!(d.uuid, "m4");
    assert_eq!(d.title, "Banner");
    assert_eq!(d.content, "bytes");
    let c = ModuleCategory {
        id: 1,
        uuid: "c1".to_string(),
        title: "Gallery".to_string(),
        page_id: 1,
    };
    let cd = ModuleCategoryDTO::from(c);
    assert_eq!(cd.uuid, "c1");
    assert_eq!(cd.title, "Gallery");
}
