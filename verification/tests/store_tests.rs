use rcms::errors::CmsError;
use rcms::module_models::{Module, ModuleCategory, MutModule, MutModuleCategory};
use rcms::page_models::{MutPage, Page};
use rcms::store::Store;

fn mut_page(uuid: Option<&str>, name: &str, url: &str, title: &str) -> MutPage {
    MutPage {
        id: None,
        uuid: uuid.map(|u| u.to_string()),
        page_name: name.to_string(),
        page_url: url.to_string(),
        page_title: title.to_string(),
    }
}

fn mut_module(uuid: Option<&str>, title: &str, page_id: i32, category: Option<i32>) -> MutModule {
    MutModule {
        id: None,
        uuid: uuid.map(|u| u.to_string()),
        module_type_id: 1,
        title: title.to_string(),
        page_id,
        content: format!("content of {}", title),
        category,
    }
}

#[test]
fn page_create_assigns_sequential_ids() {
    let mut s = Store::new();
    assert_eq!(Page::create(&mut s, &mut_page(Some("p1"), "a", "/a", "A"), 10), Ok(1));
    assert_eq!(Page::create(&mut s, &mut_page(Some("p2"), "b", "/b", "B"), 20), Ok(1));
    let all = Page::read_all(&s);
    assert_eq!(all.len(), 2);
    assert_eq!(all[0].id, 1);
    assert_eq!(all[1].id, 2);
    assert_eq!(all[0].time_created, 10);
    assert_eq!(all[1].time_created, 20);
}

#[test]
fn page_create_twice_same_key_is_noop() {
    let mut s = Store::new();
    assert_eq!(Page::create(&mut s, &mut_page(Some("p1"), "a", "/a", "A"), 5), Ok(1));
    // second create with the same primary key: no error, 0 affected rows
    assert_eq!(Page::create(&mut s, &mut_page(Some("p1"), "other", "/other", "O"), 99), Ok(0));
    let all = Page::read_all(&s);
    assert_eq!(all.len(), 1);
    // the row state is exactly the state after the first call
    assert_eq!(all[0].page_name, "a");
    assert_eq!(all[0].page_url, "/a");
    assert_eq!(all[0].time_created, 5);
}

#[test]
fn page_create_same_url_is_noop() {
    let mut s = Store::new();
    assert_eq!(Page::create(&mut s, &mut_page(Some("p1"), "a", "/home", "A"), 0), Ok(1));
    assert_eq!(Page::create(&mut s, &mut_page(Some("p2"), "b", "/home", "B"), 0), Ok(0));
    assert_eq!(Page::read_all(&s).len(), 1);
}

#[test]
fn page_create_without_key_is_store_error() {
    let mut s = Store::new();
    assert_eq!(
        Page::create(&mut s, &mut_page(None, "a", "/a", "A"), 0),
        Err(CmsError::StoreError)
    );
    assert_eq!(Page::read_all(&s).len(), 0);
}

#[test]
fn page_create_explicit_id_conflict_is_noop() {
    let mut s = Store::new();
    let mut first = mut_page(Some("p1"), "a", "/a", "A");
    first.id = Some(7);
    assert_eq!(Page::create(&mut s, &first, 0), Ok(1));
    assert_eq!(Page::read_all(&s)[0].id, 7);
    let mut clash = mut_page(Some("p2"), "b", "/b", "B");
    clash.id = Some(7);
    assert_eq!(Page::create(&mut s, &clash, 0), Ok(0));
    assert_eq!(Page::read_all(&s).len(), 1);
}

#[test]
fn page_read_one_missing_is_not_found() {
    let mut s = Store::new();
    // on an empty store
    assert_eq!(Page::read_one(&s, "nope".to_string()).unwrap_err(), CmsError::NotFound);
    // and on a store holding other rows
    Page::create(&mut s, &mut_page(Some("p1"), "a", "/a", "A"), 0).unwrap();
    assert_eq!(Page::read_one(&s, "p2".to_string()).unwrap_err(), CmsError::NotFound);
    let p = Page::read_one(&s, "p1".to_string()).unwrap();
    assert_eq!(p.guid, "p1");
    assert_eq!(p.page_url, "/a");
}

#[test]
fn page_update_replaces_writable_fields() {
    let mut s = Store::new();
    Page::create(&mut s, &mut_page(Some("p1"), "a", "/a", "A"), 5).unwrap();
    assert_eq!(
        Page::update(&mut s, "p1".to_string(), &mut_page(None, "a2", "/a2", "A2")),
        Ok(1)
    );
    let p = Page::read_one(&s, "p1".to_string()).unwrap();
    assert_eq!(p.page_name, "a2");
    assert_eq!(p.page_url, "/a2");
    assert_eq!(p.page_title, "A2");
    // identity and creation instant are kept
    assert_eq!(p.id, 1);
    assert_eq!(p.time_created, 5);
}

#[test]
fn page_update_missing_row_counts_zero() {
    let mut s = Store::new();
    assert_eq!(
        Page::update(&mut s, "p1".to_string(), &mut_page(None, "a", "/a", "A")),
        Ok(0)
    );
}

#[test]
fn page_update_url_clash_is_store_error() {
    let mut s = Store::new();
    Page::create(&mut s, &mut_page(Some("p1"), "a", "/a", "A"), 0).unwrap();
    Page::create(&mut s, &mut_page(Some("p2"), "b", "/b", "B"), 0).unwrap();
    assert_eq!(
        Page::update(&mut s, "p2".to_string(), &mut_page(None, "b", "/a", "B")),
        Err(CmsError::StoreError)
    );
    // nothing changed
    assert_eq!(Page::read_one(&s, "p2".to_string()).unwrap().page_url, "/b");
}

#[test]
fn page_delete_then_read_is_not_found() {
    let mut s = Store::new();
    Page::create(&mut s, &mut_page(Some("p1"), "a", "/a", "A"), 0).unwrap();
    assert_eq!(Page::delete(&mut s, "p1".to_string()), Ok(1));
    assert_eq!(Page::read_one(&s, "p1".to_string()).unwrap_err(), CmsError::NotFound);
    assert_eq!(Page::delete(&mut s, "p1".to_string()), Ok(0));
}

#[test]
fn module_create_twice_same_key_is_noop() {
    let mut s = Store::new();
    assert_eq!(Module::create(&mut s, &mut_module(Some("m1"), "Intro", 1, None)), Ok(1));
    assert_eq!(Module::create(&mut s, &mut_module(Some("m1"), "Other", 1, None)), Ok(0));
    let all = Module::read_all(&s);
    assert_eq!(all.len(), 1);
    assert_eq!(all[0].title, "Intro");
}

#[test]
fn module_create_without_key_is_store_error() {
    let mut s = Store::new();
    assert_eq!(
        Module::create(&mut s, &mut_module(None, "Intro", 1, None)),
        Err(CmsError::StoreError)
    );
}

#[test]
fn module_read_one_missing_is_not_found() {
    let s = Store::new();
    assert_eq!(Module::read_one(&s, "m1".to_string()).unwrap_err(), CmsError::NotFound);
}

#[test]
fn module_read_all_returns_only_uncategorized() {
    let mut s = Store::new();
    Module::create(&mut s, &mut_module(Some("m1"), "Free", 1, None)).unwrap();
    Module::create(&mut s, &mut_module(Some("m2"), "Bound", 1, Some(3))).unwrap();
    Module::create(&mut s, &mut_module(Some("m3"), "Loose", 2, None)).unwrap();
    let all = Module::read_all(&s);
    assert_eq!(all.len(), 2);
    assert_eq!(all[0].uuid, "m1");
    assert_eq!(all[1].uuid, "m3");
}

#[test]
fn module_update_and_delete() {
    let mut s = Store::new();
    Module::create(&mut s, &mut_module(Some("m1"), "Intro", 1, None)).unwrap();
    assert_eq!(
        Module::update(&mut s, "m1".to_string(), &mut_module(None, "Intro2", 2, Some(9))),
        Ok(1)
    );
    let d = Module::read_one(&s, "m1".to_string()).unwrap();
    assert_eq!(d.title, "Intro2");
    assert_eq!(
        Module::update(&mut s, "mx".to_string(), &mut_module(None, "t", 1, None)),
        Ok(0)
    );
    assert_eq!(Module::delete(&mut s, "m1".to_string()), Ok(1));
    assert_eq!(Module::delete(&mut s, "m1".to_string()), Ok(0));
    assert_eq!(Module::read_one(&s, "m1".to_string()).unwrap_err(), CmsError::NotFound);
}

#[test]
fn category_crud_roundtrip() {
    let mut s = Store::new();
    let new = MutModuleCategory {
        id: None,
        uuid: Some("c1".to_string()),
        title: "Gallery".to_string(),
        page_id: 1,
    };
    assert_eq!(ModuleCategory::create(&mut s, &new), Ok(1));
    // identical create: silent no-op
    assert_eq!(ModuleCategory::create(&mut s, &new), Ok(0));
    let c = ModuleCategory::read_one(&s, "c1".to_string()).unwrap();
    assert_eq!(c.title, "Gallery");
    assert_eq!(c.id, 1);
    assert_eq!(ModuleCategory::read_one(&s, "c2".to_string()).unwrap_err(), CmsError::NotFound);
    let upd = MutModuleCategory {
        id: None,
        uuid: None,
        title: "Album".to_string(),
        page_id: 1,
    };
    assert_eq!(ModuleCategory::update(&mut s, "c1".to_string(), &upd), Ok(1));
    assert_eq!(ModuleCategory::read_all(&s)[0].title, "Album");
    assert_eq!(ModuleCategory::delete(&mut s, "c1".to_string()), Ok(1));
    assert_eq!(ModuleCategory::read_all(&s).len(), 0);
}
