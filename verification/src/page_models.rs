use vstd::prelude::*;

use crate::errors::CmsError;
use crate::fields::{ArrayFieldMap, FieldMap};
use crate::module_models::{
    category_referenced, dto_of, dtos_of, lemma_dtos_push, lemma_of_category_push,
    lemma_of_page_push, lemma_page_uncategorized_push, of_category, of_page, page_uncategorized,
    CategoryDTO, FieldsDTO, Module, ModuleCategory, ModuleDTO,
};
use crate::store::{
    categories_wf, lemma_category_id_injective, lemma_category_uuid_injective, Store,
};

verus! {

/// A persisted page row. `guid` is the opaque string key; `id` is the
/// internal numeric row id; `page_url` is the routable path, unique
/// among pages.
#[derive(Debug)]
pub struct Page {
    pub id: i32,
    pub guid: String,
    /// This should match the name of the rendered template file.
    pub page_name: String,
    /// This should be the path which the program matches on.
    pub page_url: String,
    pub page_title: String,
    /// Creation instant, as seconds since the epoch; the store records
    /// the clock value the caller hands to `create`.
    pub time_created: i64,
}

/// The mutable (write) representation of a page. `id` and `uuid` are
/// optional: a missing `id` lets the store assign the next internal row
/// id, a missing `uuid` is rejected, since the string key is the primary
/// key. `time_created` is not writable; the store fills it at creation.
#[derive(Debug)]
pub struct MutPage {
    pub id: Option<i32>,
    pub uuid: Option<String>,
    pub page_name: String,
    pub page_url: String,
    pub page_title: String,
}

/// The display-oriented assembled view: a page summary plus the two
/// title-keyed lookups of the editing shape (one module per title, and a
/// list per title for repeated fields).
#[derive(Debug)]
pub struct PageModuleDisplayDTO {
    pub page_id: i32,
    pub guid: String,
    pub page_name: String,
    pub page_url: String,
    pub page_title: String,
    pub time_created: i64,
    /// Keyed by module title; holds the single module of that title.
    /// On repeated titles the module inserted last wins.
    pub fields: FieldMap,
    /// Keyed by module title; holds every module of that title, in
    /// insertion order.
    pub array_fields: ArrayFieldMap,
}

/// The editing-oriented assembled view: a page summary plus the
/// module-fields section (uncategorized modules and category buckets).
#[derive(Debug)]
pub struct PageModuleDTO {
    pub page_id: i32,
    pub guid: String,
    pub page_name: String,
    pub page_url: String,
    pub page_title: String,
    pub time_created: i64,
    pub fields: FieldsDTO,
}

/// Whether `row` collides with `new` on the string key, on an explicitly
/// requested internal id, or on the unique routable URL.
pub open spec fn page_conflict_at(row: Page, new: MutPage) -> bool {
    row.guid@ == new.uuid.unwrap()@ || (new.id is Some && row.id == new.id.unwrap())
        || row.page_url@ == new.page_url@
}

/// Whether any stored page row collides with `new`.
pub open spec fn page_conflicts(rows: Seq<Page>, new: MutPage) -> bool {
    exists|i: int| 0 <= i < rows.len() && #[trigger] page_conflict_at(rows[i], new)
}

/// The largest internal page id in use, at least 0.
pub open spec fn max_page_id(rows: Seq<Page>) -> int
    decreases rows.len(),
{
    if rows.len() == 0 {
        0
    } else {
        let rest = max_page_id(rows.drop_last());
        if rows.last().id > rest {
            rows.last().id as int
        } else {
            rest
        }
    }
}

pub proof fn lemma_max_page_id_bound(rows: Seq<Page>)
    ensures
        max_page_id(rows) >= 0,
        forall|j: int| 0 <= j < rows.len() ==> (#[trigger] rows[j]).id <= max_page_id(rows),
    decreases rows.len(),
{
    if rows.len() > 0 {
        lemma_max_page_id_bound(rows.drop_last());
        assert forall|j: int|
            0 <= j < rows.len() implies (#[trigger] rows[j]).id <= max_page_id(rows) by {
            if j < rows.len() - 1 {
                assert(rows.drop_last()[j] == rows[j]);
            }
        }
    }
}

/// The row a successful page create stores for `new`, stamped with the
/// caller's clock value.
pub open spec fn mk_page(rows: Seq<Page>, new: MutPage, now: i64) -> Page {
    Page {
        id: if new.id is Some {
            new.id.unwrap()
        } else {
            (max_page_id(rows) + 1) as i32
        },
        guid: new.uuid.unwrap(),
        page_name: new.page_name,
        page_url: new.page_url,
        page_title: new.page_title,
        time_created: now,
    }
}

/// The pages table after a create; insert-or-ignore on any key, id or
/// URL conflict.
pub open spec fn page_create_rows(rows: Seq<Page>, new: MutPage, now: i64) -> Seq<Page> {
    if new.uuid is None {
        rows
    } else if page_conflicts(rows, new) {
        rows
    } else if new.id is None && max_page_id(rows) + 1 > i32::MAX {
        rows
    } else {
        rows.push(mk_page(rows, new, now))
    }
}

/// The count or error a page create returns.
pub open spec fn page_create_result(rows: Seq<Page>, new: MutPage) -> Result<usize, CmsError> {
    if new.uuid is None {
        Err(CmsError::StoreError)
    } else if page_conflicts(rows, new) {
        Ok(0)
    } else if new.id is None && max_page_id(rows) + 1 > i32::MAX {
        Err(CmsError::StoreError)
    } else {
        Ok(1)
    }
}

/// The row a page update leaves in place of `p`: the writable fields are
/// replaced, identity and creation instant stay.
pub open spec fn page_updated(p: Page, new: MutPage) -> Page {
    Page {
        id: p.id,
        guid: p.guid,
        page_name: new.page_name,
        page_url: new.page_url,
        page_title: new.page_title,
        time_created: p.time_created,
    }
}

/// Whether some row other than the one at `i` already uses `url`; such
/// an update would break the unique-URL invariant and is a store error.
pub open spec fn url_conflict_except(rows: Seq<Page>, i: int, url: Seq<char>) -> bool {
    exists|j: int| 0 <= j < rows.len() && j != i && (#[trigger] rows[j]).page_url@ == url
}

fn max_id_of_pages(rows: &Vec<Page>) -> (r: i32)
    ensures
        r as int == max_page_id(rows@),
        r >= 0,
{
    let n = rows.len();
    let mut mx: i32 = 0;
    let mut i: usize = 0;
    while i < n
        invariant
            n == rows@.len(),
            0 <= i <= n,
            mx as int == max_page_id(rows@.take(i as int)),
            mx >= 0,
        decreases n - i,
    {
        proof {
            assert(rows@.take(i as int + 1).drop_last() =~= rows@.take(i as int));
            assert(rows@.take(i as int + 1).last() == rows@[i as int]);
        }
        if rows[i].id > mx {
            mx = rows[i].id;
        }
        i += 1;
    }
    proof {
        assert(rows@.take(n as int) =~= rows@);
    }
    mx
}

impl Page {
    /// Inserts one page row, stamped with the caller's clock value. On a
    /// string-key, id or URL conflict the call is a silent no-op
    /// returning 0 affected rows (insert-or-ignore); a repeated create
    /// never surfaces a duplicate-key error.
    pub fn create(s: &mut Store, new: &MutPage, now: i64) -> (r: Result<usize, CmsError>)
        requires
            old(s).wf(),
        ensures
            final(s).wf(),
            final(s).modules@ == old(s).modules@,
            final(s).categories@ == old(s).categories@,
            final(s).pages@ == page_create_rows(old(s).pages@, *new, now),
            r == page_create_result(old(s).pages@, *new),
    {
        let u: String = match &new.uuid {
            Some(x) => x.clone(),
            None => {
                return Err(CmsError::StoreError);
            },
        };
        let n = s.pages.len();
        let mut i: usize = 0;
        while i < n
            invariant
                n == s.pages@.len(),
                0 <= i <= n,
                old(s).wf(),
                s.pages@ == old(s).pages@,
                s.modules@ == old(s).modules@,
                s.categories@ == old(s).categories@,
                new.uuid is Some && u@ == new.uuid.unwrap()@,
                forall|j: int| 0 <= j < i ==> !page_conflict_at(#[trigger] old(s).pages@[j], *new),
            decreases n - i,
        {
            let guid_hit = s.pages[i].guid == u;
            let url_hit = s.pages[i].page_url == new.page_url;
            let id_hit = match new.id {
                Some(v) => s.pages[i].id == v,
                None => false,
            };
            if guid_hit || url_hit || id_hit {
                proof {
                    assert(page_conflict_at(old(s).pages@[i as int], *new));
                }
                return Ok(0);
            }
            i += 1;
        }
        let id: i32 = match new.id {
            Some(v) => v,
            None => {
                let mx = max_id_of_pages(&s.pages);
                if mx == i32::MAX {
                    return Err(CmsError::StoreError);
                }
                mx + 1
            },
        };
        let row = Page {
            id,
            guid: u,
            page_name: new.page_name.clone(),
            page_url: new.page_url.clone(),
            page_title: new.page_title.clone(),
            time_created: now,
        };
        proof {
            let ps = old(s).pages@;
            assert(row == mk_page(ps, *new, now));
            lemma_max_page_id_bound(ps);
            let ps2 = ps.push(row);
            assert forall|a: int, b: int|
                0 <= a < b < ps2.len() implies (#[trigger] ps2[a]).guid@ != (
            #[trigger] ps2[b]).guid@ && ps2[a].id != ps2[b].id && ps2[a].page_url@
                != ps2[b].page_url@ by {
                if b < ps.len() {
                    assert(ps[a].guid@ != ps[b].guid@ && ps[a].id != ps[b].id && ps[a].page_url@
                        != ps[b].page_url@);
                } else {
                    assert(!page_conflict_at(ps[a], *new));
                }
            }
        }
        s.pages.push(row);
        Ok(1)
    }

    /// Fetches the one page with string key `id`. Zero matching rows is
    /// the hard error `NotFound`, never a default or empty page.
    pub fn read_one(s: &Store, id: String) -> (r: Result<Page, CmsError>)
        requires
            s.wf(),
        ensures
            match r {
                Ok(p) => exists|i: int|
                    0 <= i < s.pages@.len() && (#[trigger] s.pages@[i]).guid@ == id@ && p
                        == s.pages@[i],
                Err(e) => e == CmsError::NotFound && forall|i: int|
                    0 <= i < s.pages@.len() ==> (#[trigger] s.pages@[i]).guid@ != id@,
            },
    {
        let n = s.pages.len();
        let mut i: usize = 0;
        while i < n
            invariant
                n == s.pages@.len(),
                0 <= i <= n,
                forall|j: int| 0 <= j < i ==> (#[trigger] s.pages@[j]).guid@ != id@,
            decreases n - i,
        {
            if s.pages[i].guid == id {
                let p = &s.pages[i];
                return Ok(Page {
                    id: p.id,
                    guid: p.guid.clone(),
                    page_name: p.page_name.clone(),
                    page_url: p.page_url.clone(),
                    page_title: p.page_title.clone(),
                    time_created: p.time_created,
                });
            }
            i += 1;
        }
        Err(CmsError::NotFound)
    }

    /// Scans the whole pages table, in row order.
    pub fn read_all(s: &Store) -> (r: Vec<Page>)
        ensures
            r@ == s.pages@,
    {
        let n = s.pages.len();
        let mut out: Vec<Page> = Vec::new();
        let mut i: usize = 0;
        while i < n
            invariant
                n == s.pages@.len(),
                0 <= i <= n,
                out@ == s.pages@.take(i as int),
            decreases n - i,
        {
            let p = &s.pages[i];
            out.push(Page {
                id: p.id,
                guid: p.guid.clone(),
                page_name: p.page_name.clone(),
                page_url: p.page_url.clone(),
                page_title: p.page_title.clone(),
                time_created: p.time_created,
            });
            proof {
                assert(s.pages@.take(i as int + 1) =~= s.pages@.take(i as int).push(
                    s.pages@[i as int],
                ));
            }
            i += 1;
        }
        proof {
            assert(s.pages@.take(n as int) =~= s.pages@);
        }
        out
    }

    /// Replaces every writable field of the page with string key `id`.
    /// 0 affected rows means no row matched. Writing a URL that another
    /// page already uses would break the unique-URL invariant and is
    /// rejected as a store error, leaving the table unchanged.
    pub fn update(s: &mut Store, id: String, new: &MutPage) -> (r: Result<usize, CmsError>)
        requires
            old(s).wf(),
        ensures
            final(s).wf(),
            final(s).modules@ == old(s).modules@,
            final(s).categories@ == old(s).categories@,
            (forall|i: int|
                0 <= i < old(s).pages@.len() ==> (#[trigger] old(s).pages@[i]).guid@ != id@)
                ==> final(s).pages@ == old(s).pages@ && r == Ok::<usize, CmsError>(0),
            forall|i: int|
                0 <= i < old(s).pages@.len() && (#[trigger] old(s).pages@[i]).guid@ == id@ ==> if (
                url_conflict_except(old(s).pages@, i, new.page_url@)) {
                    final(s).pages@ == old(s).pages@ && r == Err::<usize, CmsError>(
                        CmsError::StoreError,
                    )
                } else {
                    final(s).pages@ == old(s).pages@.update(
                        i,
                        page_updated(old(s).pages@[i], *new),
                    ) && r == Ok::<usize, CmsError>(1)
                },
    {
        let n = s.pages.len();
        let mut i: usize = 0;
        while i < n
            invariant
                n == s.pages@.len(),
                0 <= i <= n,
                old(s).wf(),
                s.pages@ == old(s).pages@,
                s.modules@ == old(s).modules@,
                s.categories@ == old(s).categories@,
                forall|j: int| 0 <= j < i ==> (#[trigger] s.pages@[j]).guid@ != id@,
            decreases n - i,
        {
            if s.pages[i].guid == id {
                let mut j: usize = 0;
                while j < n
                    invariant
                        n == s.pages@.len(),
                        0 <= j <= n,
                        i < n,
                        old(s).wf(),
                        s.pages@ == old(s).pages@,
                        s.modules@ == old(s).modules@,
                        s.categories@ == old(s).categories@,
                        s.pages@[i as int].guid@ == id@,
                        forall|k: int|
                            0 <= k < j && k != i ==> (#[trigger] s.pages@[k]).page_url@
                                != new.page_url@,
                    decreases n - j,
                {
                    if j != i && s.pages[j].page_url == new.page_url {
                        proof {
                            assert(url_conflict_except(old(s).pages@, i as int, new.page_url@));
                        }
                        return Err(CmsError::StoreError);
                    }
                    j += 1;
                }
                let updated = Page {
                    id: s.pages[i].id,
                    guid: s.pages[i].guid.clone(),
                    page_name: new.page_name.clone(),
                    page_url: new.page_url.clone(),
                    page_title: new.page_title.clone(),
                    time_created: s.pages[i].time_created,
                };
                proof {
                    let ps = old(s).pages@;
                    assert(updated == page_updated(ps[i as int], *new));
                    let ps2 = ps.update(i as int, updated);
                    assert forall|a: int, b: int|
                        0 <= a < b < ps2.len() implies (#[trigger] ps2[a]).guid@ != (
                    #[trigger] ps2[b]).guid@ && ps2[a].id != ps2[b].id && ps2[a].page_url@
                        != ps2[b].page_url@ by {
                        assert(ps[a].guid@ != ps[b].guid@ && ps[a].id != ps[b].id && ps[a].page_url@
                            != ps[b].page_url@);
                    }
                }
                s.pages.set(i, updated);
                return Ok(1);
            }
            i += 1;
        }
        Ok(0)
    }

    /// Removes the page with string key `id`; the count is 0 when
    /// nothing matched.
    pub fn delete(s: &mut Store, id: String) -> (r: Result<usize, CmsError>)
        requires
            old(s).wf(),
        ensures
            final(s).wf(),
            final(s).modules@ == old(s).modules@,
            final(s).categories@ == old(s).categories@,
            (forall|i: int|
                0 <= i < old(s).pages@.len() ==> (#[trigger] old(s).pages@[i]).guid@ != id@)
                ==> final(s).pages@ == old(s).pages@ && r == Ok::<usize, CmsError>(0),
            forall|i: int|
                0 <= i < old(s).pages@.len() && (#[trigger] old(s).pages@[i]).guid@ == id@
                    ==> final(s).pages@ == old(s).pages@.remove(i) && r == Ok::<usize, CmsError>(1),
    {
        let n = s.pages.len();
        let mut i: usize = 0;
        while i < n
            invariant
                n == s.pages@.len(),
                0 <= i <= n,
                old(s).wf(),
                s.pages@ == old(s).pages@,
                s.modules@ == old(s).modules@,
                s.categories@ == old(s).categories@,
                forall|j: int| 0 <= j < i ==> (#[trigger] s.pages@[j]).guid@ != id@,
            decreases n - i,
        {
            if s.pages[i].guid == id {
                proof {
                    let ps = old(s).pages@;
                    let ps2 = ps.remove(i as int);
                    assert forall|a: int, b: int|
                        0 <= a < b < ps2.len() implies (#[trigger] ps2[a]).guid@ != (
                    #[trigger] ps2[b]).guid@ && ps2[a].id != ps2[b].id && ps2[a].page_url@
                        != ps2[b].page_url@ by {
                        let a0 = if a < i as int { a } else { a + 1 };
                        let b0 = if b < i as int { b } else { b + 1 };
                        assert(ps2[a] == ps[a0] && ps2[b] == ps[b0]);
                        assert(ps[a0].guid@ != ps[b0].guid@ && ps[a0].id != ps[b0].id
                            && ps[a0].page_url@ != ps[b0].page_url@);
                    }
                }
                s.pages.remove(i);
                return Ok(1);
            }
            i += 1;
        }
        Ok(0)
    }
}

/// The page-summary part shared by both assembled views.
pub open spec fn page_summary_ok(p: Page, dto: PageModuleDTO) -> bool {
    dto.page_id == p.id && dto.guid@ == p.guid@ && dto.page_name@ == p.page_name@
        && dto.page_url@ == p.page_url@ && dto.page_title@ == p.page_title@ && dto.time_created
        == p.time_created
}

/// One assembled category entry is faithful: it stands for a stored
/// category that some module of the page references, and it carries
/// exactly that category's member modules, in row order.
pub open spec fn cat_entry_ok(s: Store, pid: i32, e: CategoryDTO) -> bool {
    exists|c: ModuleCategory|
        #[trigger] s.categories@.contains(c) && category_referenced(s.modules@, pid, c.id)
            && e.uuid@ == c.uuid@ && e.title@ == c.title@ && e.modules@ == dtos_of(
            of_category(s.modules@, c.id),
        )
}

/// The assembled category list is faithful, duplicate-free and complete:
/// exactly one entry per stored category reachable from the page's
/// modules.
pub open spec fn cat_list_ok(s: Store, pid: i32, cs: Seq<CategoryDTO>) -> bool {
    &&& forall|k: int| 0 <= k < cs.len() ==> cat_entry_ok(s, pid, #[trigger] cs[k])
    &&& forall|k: int, l: int|
        0 <= k < l < cs.len() ==> (#[trigger] cs[k]).uuid@ != (#[trigger] cs[l]).uuid@
    &&& forall|c: ModuleCategory|
        #[trigger] s.categories@.contains(c) && category_referenced(s.modules@, pid, c.id)
            ==> exists|k: int| 0 <= k < cs.len() && (#[trigger] cs[k]).uuid@ == c.uuid@
}

/// What the editing view promises: the page summary, the page's
/// uncategorized modules in row order, and the faithful category list.
pub open spec fn edit_view_ok(s: Store, p: Page, dto: PageModuleDTO) -> bool {
    &&& page_summary_ok(p, dto)
    &&& dto.fields.modules@ == dtos_of(page_uncategorized(s.modules@, p.id))
    &&& dto.fields.categories is Some
    &&& cat_list_ok(s, p.id, dto.fields.categories.unwrap()@)
}

/// What the display view promises for its module-fields section: all of
/// the page's modules (not pre-split by category) and the same faithful
/// category list as the editing view.
pub open spec fn display_fields_ok(s: Store, pid: i32, f: FieldsDTO) -> bool {
    &&& f.modules@ == dtos_of(of_page(s.modules@, pid))
    &&& f.categories is Some
    &&& cat_list_ok(s, pid, f.categories.unwrap()@)
}

fn find_page_by_guid(s: &Store, id: &String) -> (r: Option<usize>)
    ensures
        match r {
            Some(i) => i < s.pages@.len() && s.pages@[i as int].guid@ == id@,
            None => forall|j: int| 0 <= j < s.pages@.len() ==> (#[trigger] s.pages@[j]).guid@ != id@,
        },
{
    let n = s.pages.len();
    let mut i: usize = 0;
    while i < n
        invariant
            n == s.pages@.len(),
            0 <= i <= n,
            forall|j: int| 0 <= j < i ==> (#[trigger] s.pages@[j]).guid@ != id@,
        decreases n - i,
    {
        if s.pages[i].guid == *id {
            return Some(i);
        }
        i += 1;
    }
    None
}

fn find_page_by_url(s: &Store, url: &String) -> (r: Option<usize>)
    ensures
        match r {
            Some(i) => i < s.pages@.len() && s.pages@[i as int].page_url@ == url@,
            None => forall|j: int|
                0 <= j < s.pages@.len() ==> (#[trigger] s.pages@[j]).page_url@ != url@,
        },
{
    let n = s.pages.len();
    let mut i: usize = 0;
    while i < n
        invariant
            n == s.pages@.len(),
            0 <= i <= n,
            forall|j: int| 0 <= j < i ==> (#[trigger] s.pages@[j]).page_url@ != url@,
        decreases n - i,
    {
        if s.pages[i].page_url == *url {
            return Some(i);
        }
        i += 1;
    }
    None
}

fn page_uncat_dtos(s: &Store, pid: i32) -> (r: Vec<ModuleDTO>)
    ensures
        r@ == dtos_of(page_uncategorized(s.modules@, pid)),
{
    let n = s.modules.len();
    let mut out: Vec<ModuleDTO> = Vec::new();
    let mut i: usize = 0;
    while i < n
        invariant
            n == s.modules@.len(),
            0 <= i <= n,
            out@ == dtos_of(page_uncategorized(s.modules@.take(i as int), pid)),
        decreases n - i,
    {
        proof {
            let pre = s.modules@.take(i as int);
            let m = s.modules@[i as int];
            assert(s.modules@.take(i as int + 1) =~= pre.push(m));
            lemma_page_uncategorized_push(pre, m, pid);
            if m.page_id == pid && m.category is None {
                lemma_dtos_push(page_uncategorized(pre, pid), m);
            }
        }
        let m = &s.modules[i];
        if m.page_id == pid && m.category.is_none() {
            out.push(ModuleDTO {
                uuid: m.uuid.clone(),
                title: m.title.clone(),
                content: m.content.clone(),
            });
        }
        i += 1;
    }
    proof {
        assert(s.modules@.take(n as int) =~= s.modules@);
    }
    out
}

fn page_all_dtos(s: &Store, pid: i32) -> (r: Vec<ModuleDTO>)
    ensures
        r@ == dtos_of(of_page(s.modules@, pid)),
{
    let n = s.modules.len();
    let mut out: Vec<ModuleDTO> = Vec::new();
    let mut i: usize = 0;
    while i < n
        invariant
            n == s.modules@.len(),
            0 <= i <= n,
            out@ == dtos_of(of_page(s.modules@.take(i as int), pid)),
        decreases n - i,
    {
        proof {
            let pre = s.modules@.take(i as int);
            let m = s.modules@[i as int];
            assert(s.modules@.take(i as int + 1) =~= pre.push(m));
            lemma_of_page_push(pre, m, pid);
            if m.page_id == pid {
                lemma_dtos_push(of_page(pre, pid), m);
            }
        }
        let m = &s.modules[i];
        if m.page_id == pid {
            out.push(ModuleDTO {
                uuid: m.uuid.clone(),
                title: m.title.clone(),
                content: m.content.clone(),
            });
        }
        i += 1;
    }
    proof {
        assert(s.modules@.take(n as int) =~= s.modules@);
    }
    out
}

fn category_modules_dtos(s: &Store, cid: i32) -> (r: Vec<ModuleDTO>)
    ensures
        r@ == dtos_of(of_category(s.modules@, cid)),
{
    let n = s.modules.len();
    let mut out: Vec<ModuleDTO> = Vec::new();
    let mut i: usize = 0;
    while i < n
        invariant
            n == s.modules@.len(),
            0 <= i <= n,
            out@ == dtos_of(of_category(s.modules@.take(i as int), cid)),
        decreases n - i,
    {
        proof {
            let pre = s.modules@.take(i as int);
            let m = s.modules@[i as int];
            assert(s.modules@.take(i as int + 1) =~= pre.push(m));
            lemma_of_category_push(pre, m, cid);
            if m.category == Some(cid) {
                lemma_dtos_push(of_category(pre, cid), m);
            }
        }
        let m = &s.modules[i];
        let hit = match m.category {
            Some(c2) => c2 == cid,
            None => false,
        };
        if hit {
            out.push(ModuleDTO {
                uuid: m.uuid.clone(),
                title: m.title.clone(),
                content: m.content.clone(),
            });
        }
        i += 1;
    }
    proof {
        assert(s.modules@.take(n as int) =~= s.modules@);
    }
    out
}

fn category_is_referenced(s: &Store, pid: i32, cid: i32) -> (r: bool)
    ensures
        r == category_referenced(s.modules@, pid, cid),
{
    let n = s.modules.len();
    let mut i: usize = 0;
    while i < n
        invariant
            n == s.modules@.len(),
            0 <= i <= n,
            forall|j: int|
                0 <= j < i ==> !((#[trigger] s.modules@[j]).page_id == pid && s.modules@[j].category
                    == Some(cid)),
        decreases n - i,
    {
        let hit = s.modules[i].page_id == pid && (match s.modules[i].category {
            Some(c2) => c2 == cid,
            None => false,
        });
        if hit {
            proof {
                assert(i < s.modules@.len() && s.modules@[i as int].page_id == pid
                    && s.modules@[i as int].category == Some(cid));
            }
            return true;
        }
        i += 1;
    }
    false
}

/// Step 3 of assembly: the distinct set of stored categories reachable
/// from the page's modules, one entry per reachable category id. A
/// module whose category id matches no stored row is dropped, as an
/// inner join drops it.
fn page_categories(s: &Store, pid: i32) -> (r: Vec<ModuleCategory>)
    requires
        s.wf(),
    ensures
        forall|k: int|
            0 <= k < r@.len() ==> s.categories@.contains(#[trigger] r@[k]) && category_referenced(
                s.modules@,
                pid,
                r@[k].id,
            ),
        forall|k: int, l: int| 0 <= k < l < r@.len() ==> (#[trigger] r@[k]).id != (#[trigger] r@[l]).id,
        forall|c: ModuleCategory|
            #[trigger] s.categories@.contains(c) && category_referenced(s.modules@, pid, c.id)
                ==> exists|k: int| 0 <= k < r@.len() && (#[trigger] r@[k]).id == c.id,
{
    let n = s.categories.len();
    let mut out: Vec<ModuleCategory> = Vec::new();
    let mut i: usize = 0;
    while i < n
        invariant
            n == s.categories@.len(),
            0 <= i <= n,
            s.wf(),
            forall|k: int|
                0 <= k < out@.len() ==> s.categories@.take(i as int).contains(#[trigger] out@[k])
                    && category_referenced(s.modules@, pid, out@[k].id),
            forall|k: int, l: int|
                0 <= k < l < out@.len() ==> (#[trigger] out@[k]).id != (#[trigger] out@[l]).id,
            forall|c: ModuleCategory|
                #[trigger] s.categories@.take(i as int).contains(c) && category_referenced(
                    s.modules@,
                    pid,
                    c.id,
                ) ==> exists|k: int| 0 <= k < out@.len() && (#[trigger] out@[k]).id == c.id,
        decreases n - i,
    {
        let referenced = category_is_referenced(s, pid, s.categories[i].id);
        let ghost pre = out@;
        if referenced {
            let c = &s.categories[i];
            proof {
                assert forall|k: int|
                    0 <= k < pre.len() implies (#[trigger] pre[k]).id != s.categories@[i as int].id by {
                    let j = choose|j: int|
                        0 <= j < s.categories@.take(i as int).len() && s.categories@.take(i as int)[j]
                            == pre[k];
                    assert(s.categories@[j] == pre[k] && 0 <= j < i as int);
                    assert(s.categories@[j].uuid@ != s.categories@[i as int].uuid@
                        && s.categories@[j].id != s.categories@[i as int].id);
                }
            }
            out.push(ModuleCategory {
                id: c.id,
                uuid: c.uuid.clone(),
                title: c.title.clone(),
                page_id: c.page_id,
            });
            proof {
                assert(out@[out@.len() - 1] == s.categories@[i as int]);
            }
        }
        proof {
            assert(s.categories@.take(i as int + 1) =~= s.categories@.take(i as int).push(
                s.categories@[i as int],
            ));
            assert forall|k: int|
                0 <= k < out@.len() implies s.categories@.take(i as int + 1).contains(
                #[trigger] out@[k],
            ) && category_referenced(s.modules@, pid, out@[k].id) by {
                if k < pre.len() {
                    assert(pre[k] == out@[k]);
                    let j = choose|j: int|
                        0 <= j < s.categories@.take(i as int).len() && s.categories@.take(i as int)[j]
                            == pre[k];
                    assert(s.categories@.take(i as int + 1)[j] == out@[k]);
                } else {
                    assert(out@[k] == s.categories@[i as int]);
                    assert(s.categories@.take(i as int + 1)[i as int] == out@[k]);
                }
            }
            assert forall|c: ModuleCategory|
                #[trigger] s.categories@.take(i as int + 1).contains(c) && category_referenced(
                    s.modules@,
                    pid,
                    c.id,
                ) implies exists|k: int| 0 <= k < out@.len() && (#[trigger] out@[k]).id == c.id by {
                let t1 = s.categories@.take(i as int + 1);
                let j = choose|j: int| 0 <= j < t1.len() && t1[j] == c;
                if j < i as int {
                    assert(s.categories@.take(i as int)[j] == c);
                    assert(s.categories@.take(i as int).contains(c));
                    let k0 = choose|k: int| 0 <= k < pre.len() && (#[trigger] pre[k]).id == c.id;
                    assert(out@[k0].id == c.id);
                } else {
                    assert(c == s.categories@[i as int]);
                    assert(out@[out@.len() - 1].id == c.id);
                }
            }
        }
        i += 1;
    }
    proof {
        assert(s.categories@.take(n as int) =~= s.categories@);
    }
    out
}

/// Step 6 of assembly: one category entry per reachable category, each
/// carrying the modules of that category.
fn build_category_dtos(s: &Store, cats: &Vec<ModuleCategory>) -> (r: Vec<CategoryDTO>)
    ensures
        r@.len() == cats@.len(),
        forall|k: int|
            0 <= k < cats@.len() ==> (#[trigger] r@[k]).uuid@ == cats@[k].uuid@ && r@[k].title@
                == cats@[k].title@ && r@[k].modules@ == dtos_of(of_category(s.modules@, cats@[k].id)),
{
    let n = cats.len();
    let mut out: Vec<CategoryDTO> = Vec::new();
    let mut k: usize = 0;
    while k < n
        invariant
            n == cats@.len(),
            0 <= k <= n,
            out@.len() == k,
            forall|j: int|
                0 <= j < k ==> (#[trigger] out@[j]).uuid@ == cats@[j].uuid@ && out@[j].title@
                    == cats@[j].title@ && out@[j].modules@ == dtos_of(
                    of_category(s.modules@, cats@[j].id),
                ),
        decreases n - k,
    {
        let c = &cats[k];
        let mods = category_modules_dtos(s, c.id);
        out.push(CategoryDTO { uuid: c.uuid.clone(), title: c.title.clone(), modules: mods });
        k += 1;
    }
    out
}

proof fn lemma_cat_list_from_build(
    s: Store,
    pid: i32,
    cats: Seq<ModuleCategory>,
    dtos: Seq<CategoryDTO>,
)
    requires
        categories_wf(s.categories@),
        forall|k: int|
            0 <= k < cats.len() ==> s.categories@.contains(#[trigger] cats[k])
                && category_referenced(s.modules@, pid, cats[k].id),
        forall|k: int, l: int| 0 <= k < l < cats.len() ==> (#[trigger] cats[k]).id != (#[trigger] cats[l]).id,
        forall|c: ModuleCategory|
            #[trigger] s.categories@.contains(c) && category_referenced(s.modules@, pid, c.id)
                ==> exists|k: int| 0 <= k < cats.len() && (#[trigger] cats[k]).id == c.id,
        dtos.len() == cats.len(),
        forall|k: int|
            0 <= k < cats.len() ==> (#[trigger] dtos[k]).uuid@ == cats[k].uuid@ && dtos[k].title@
                == cats[k].title@ && dtos[k].modules@ == dtos_of(of_category(s.modules@, cats[k].id)),
    ensures
        cat_list_ok(s, pid, dtos),
{
    assert forall|k: int| 0 <= k < dtos.len() implies cat_entry_ok(s, pid, #[trigger] dtos[k]) by {
        let c = cats[k];
        assert(s.categories@.contains(c) && category_referenced(s.modules@, pid, c.id)
            && dtos[k].uuid@ == c.uuid@ && dtos[k].title@ == c.title@ && dtos[k].modules@
            == dtos_of(of_category(s.modules@, c.id)));
    }
    assert forall|k: int, l: int|
        0 <= k < l < dtos.len() implies (#[trigger] dtos[k]).uuid@ != (#[trigger] dtos[l]).uuid@ by {
        if dtos[k].uuid@ == dtos[l].uuid@ {
            lemma_category_uuid_injective(s.categories@, cats[k], cats[l]);
        }
    }
    assert forall|c: ModuleCategory|
        #[trigger] s.categories@.contains(c) && category_referenced(s.modules@, pid, c.id)
            implies exists|k: int| 0 <= k < dtos.len() && (#[trigger] dtos[k]).uuid@ == c.uuid@ by {
        let k = choose|k: int| 0 <= k < cats.len() && (#[trigger] cats[k]).id == c.id;
        lemma_category_id_injective(s.categories@, cats[k], c);
        assert(dtos[k].uuid@ == c.uuid@);
    }
}

impl Page {
    /// Assemble-for-edit: fetches the page by string key, its modules
    /// with no category, the distinct categories its modules reach, and
    /// one bucket of modules per reachable category. Fails with
    /// `NotFound`, touching nothing else, when no page has the key.
    pub fn read_one_join_on(s: &Store, id: String) -> (r: Result<PageModuleDTO, CmsError>)
        requires
            s.wf(),
        ensures
            match r {
                Ok(dto) => exists|i: int|
                    0 <= i < s.pages@.len() && (#[trigger] s.pages@[i]).guid@ == id@ && edit_view_ok(
                        *s,
                        s.pages@[i],
                        dto,
                    ),
                Err(e) => e == CmsError::NotFound && forall|i: int|
                    0 <= i < s.pages@.len() ==> (#[trigger] s.pages@[i]).guid@ != id@,
            },
    {
        let pi = match find_page_by_guid(s, &id) {
            Some(pi) => pi,
            None => {
                return Err(CmsError::NotFound);
            },
        };
        let p = &s.pages[pi];
        let uncat = page_uncat_dtos(s, p.id);
        let cats = page_categories(s, p.id);
        let cat_dtos = build_category_dtos(s, &cats);
        proof {
            lemma_cat_list_from_build(*s, s.pages@[pi as int].id, cats@, cat_dtos@);
        }
        Ok(PageModuleDTO {
            page_id: p.id,
            guid: p.guid.clone(),
            page_name: p.page_name.clone(),
            page_url: p.page_url.clone(),
            page_title: p.page_title.clone(),
            time_created: p.time_created,
            fields: FieldsDTO { modules: uncat, categories: Some(cat_dtos) },
        })
    }

    /// Assemble-for-display: the same assembly keyed by the page's
    /// routable URL, fetching all of the page's modules (not pre-split
    /// by category) for the module list.
    pub fn read_one_join_on_url(s: &Store, id: String) -> (r: Result<(Page, FieldsDTO), CmsError>)
        requires
            s.wf(),
        ensures
            match r {
                Ok(pf) => exists|i: int|
                    0 <= i < s.pages@.len() && (#[trigger] s.pages@[i]).page_url@ == id@ && pf.0
                        == s.pages@[i] && display_fields_ok(*s, s.pages@[i].id, pf.1),
                Err(e) => e == CmsError::NotFound && forall|i: int|
                    0 <= i < s.pages@.len() ==> (#[trigger] s.pages@[i]).page_url@ != id@,
            },
    {
        let pi = match find_page_by_url(s, &id) {
            Some(pi) => pi,
            None => {
                return Err(CmsError::NotFound);
            },
        };
        let p = &s.pages[pi];
        let all = page_all_dtos(s, p.id);
        let cats = page_categories(s, p.id);
        let cat_dtos = build_category_dtos(s, &cats);
        proof {
            lemma_cat_list_from_build(*s, s.pages@[pi as int].id, cats@, cat_dtos@);
        }
        let page = Page {
            id: p.id,
            guid: p.guid.clone(),
            page_name: p.page_name.clone(),
            page_url: p.page_url.clone(),
            page_title: p.page_title.clone(),
            time_created: p.time_created,
        };
        Ok((page, FieldsDTO { modules: all, categories: Some(cat_dtos) }))
    }
}

/// The title-keyed lookup after inserting `ms` left to right: on a
/// repeated title the module inserted last wins.
pub open spec fn fields_inserted(
    m0: Map<Seq<char>, Module>,
    ms: Seq<Module>,
) -> Map<Seq<char>, Module>
    decreases ms.len(),
{
    if ms.len() == 0 {
        m0
    } else {
        fields_inserted(m0, ms.drop_last()).insert(ms.last().title@, ms.last())
    }
}

impl PageModuleDisplayDTO {
    /// Both title-keyed lookups keep their titles distinct.
    pub open spec fn maps_wf(self) -> bool {
        self.fields.wf() && self.array_fields.wf()
    }

    /// The summary of `p` with both lookups still empty.
    pub fn from_page(p: Page) -> (r: Self)
        ensures
            r.page_id == p.id,
            r.guid == p.guid,
            r.page_name == p.page_name,
            r.page_url == p.page_url,
            r.page_title == p.page_title,
            r.time_created == p.time_created,
            r.maps_wf(),
            r.fields@ == Map::<Seq<char>, Module>::empty(),
            r.array_fields@ == Map::<Seq<char>, Seq<Module>>::empty(),
    {
        PageModuleDisplayDTO {
            page_id: p.id,
            guid: p.guid,
            page_name: p.page_name,
            page_url: p.page_url,
            page_title: p.page_title,
            time_created: p.time_created,
            fields: FieldMap::new(),
            array_fields: ArrayFieldMap::new(),
        }
    }

    /// Binds the module under its own title; a repeated title is
    /// overwritten, so the module inserted last wins.
    pub fn add_field(&mut self, m: Module)
        requires
            old(self).maps_wf(),
        ensures
            final(self).maps_wf(),
            final(self).fields@ == old(self).fields@.insert(m.title@, m),
            final(self).array_fields@ == old(self).array_fields@,
            final(self).page_id == old(self).page_id,
            final(self).guid == old(self).guid,
            final(self).page_name == old(self).page_name,
            final(self).page_url == old(self).page_url,
            final(self).page_title == old(self).page_title,
            final(self).time_created == old(self).time_created,
    {
        let t = m.title.clone();
        self.fields.insert(t, m);
    }

    /// Appends the module to the list bound to its own title.
    pub fn add_array_field(&mut self, m: Module)
        requires
            old(self).maps_wf(),
        ensures
            final(self).maps_wf(),
            final(self).fields@ == old(self).fields@,
            final(self).array_fields@ == old(self).array_fields@.insert(
                m.title@,
                if old(self).array_fields@.contains_key(m.title@) {
                    old(self).array_fields@[m.title@].push(m)
                } else {
                    seq![m]
                },
            ),
            final(self).page_id == old(self).page_id,
            final(self).guid == old(self).guid,
            final(self).page_name == old(self).page_name,
            final(self).page_url == old(self).page_url,
            final(self).page_title == old(self).page_title,
            final(self).time_created == old(self).time_created,
    {
        let t = m.title.clone();
        self.array_fields.insert(t, m);
    }

    /// Fills the single-module lookup from `ms`, first to last, so that
    /// on duplicate titles the module handed over last is the one kept.
    pub fn set_fields(&mut self, ms: Vec<Module>)
        requires
            old(self).maps_wf(),
        ensures
            final(self).maps_wf(),
            final(self).fields@ == fields_inserted(old(self).fields@, ms@),
            final(self).array_fields@ == old(self).array_fields@,
            final(self).page_id == old(self).page_id,
            final(self).guid == old(self).guid,
            final(self).page_name == old(self).page_name,
            final(self).page_url == old(self).page_url,
            final(self).page_title == old(self).page_title,
            final(self).time_created == old(self).time_created,
    {
        let ghost all = ms@;
        let mut ms = ms;
        let mut i: usize = 0;
        let n = ms.len();
        while i < n
            invariant
                n == all.len(),
                0 <= i <= n,
                ms@ == all,
                self.maps_wf(),
                self.fields@ == fields_inserted(old(self).fields@, all.take(i as int)),
                self.array_fields@ == old(self).array_fields@,
                self.page_id == old(self).page_id,
                self.guid == old(self).guid,
                self.page_name == old(self).page_name,
                self.page_url == old(self).page_url,
                self.page_title == old(self).page_title,
                self.time_created == old(self).time_created,
            decreases n - i,
        {
            proof {
                assert(all.take(i as int + 1).drop_last() =~= all.take(i as int));
                assert(all.take(i as int + 1).last() == all[i as int]);
            }
            let m = Module {
                id: ms[i].id,
                uuid: ms[i].uuid.clone(),
                module_type_id: ms[i].module_type_id,
                title: ms[i].title.clone(),
                page_id: ms[i].page_id,
                content: ms[i].content.clone(),
                category: ms[i].category,
            };
            self.add_field(m);
            i += 1;
        }
        proof {
            assert(all.take(n as int) =~= all);
        }
    }
}

impl PageModuleDTO {
    /// The summary of `p` with an empty module-fields section.
    pub fn from_page(p: Page) -> (r: Self)
        ensures
            r.page_id == p.id,
            r.guid == p.guid,
            r.page_name == p.page_name,
            r.page_url == p.page_url,
            r.page_title == p.page_title,
            r.time_created == p.time_created,
            r.fields.modules@ == Seq::<ModuleDTO>::empty(),
            r.fields.categories is None,
    {
        let fields = FieldsDTO { modules: Vec::new(), categories: None };
        proof {
            assert(fields.modules@ =~= Seq::<ModuleDTO>::empty());
        }
        PageModuleDTO {
            page_id: p.id,
            guid: p.guid,
            page_name: p.page_name,
            page_url: p.page_url,
            page_title: p.page_title,
            time_created: p.time_created,
            fields,
        }
    }
}

} // verus!
