use vstd::prelude::*;

use crate::errors::CmsError;
use crate::store::Store;

verus! {

/// A persisted module row: a block of content owned by exactly one page,
/// optionally owned by one category of that page.
#[derive(Debug)]
pub struct Module {
    pub id: i32,
    pub uuid: String,
    pub module_type_id: i32,
    pub title: String,
    pub page_id: i32,
    pub content: String,
    pub category: Option<i32>,
}

/// The mutable (write) representation of a module. `id` and `uuid` are
/// optional: a missing `id` lets the store assign the next internal row id,
/// a missing `uuid` is rejected, since the string key is the primary key.
#[derive(Debug)]
pub struct MutModule {
    pub id: Option<i32>,
    pub uuid: Option<String>,
    pub module_type_id: i32,
    pub title: String,
    pub page_id: i32,
    pub content: String,
    pub category: Option<i32>,
}

/// A persisted category row, owned by one page.
#[derive(Debug)]
pub struct ModuleCategory {
    pub id: i32,
    pub uuid: String,
    pub title: String,
    pub page_id: i32,
}

/// The mutable (write) representation of a category.
#[derive(Debug)]
pub struct MutModuleCategory {
    pub id: Option<i32>,
    pub uuid: Option<String>,
    pub title: String,
    pub page_id: i32,
}

/// A category reduced to its public identity and title.
#[derive(Debug)]
pub struct ModuleCategoryDTO {
    pub uuid: String,
    pub title: String,
}

/// A module reduced to the fields a caller renders.
#[derive(Debug)]
pub struct ModuleDTO {
    pub uuid: String,
    pub title: String,
    pub content: String,
}

/// One assembled category: its identity, title and member modules.
/// An empty module list is permitted.
#[derive(Debug)]
pub struct CategoryDTO {
    pub uuid: String,
    pub title: String,
    pub modules: Vec<ModuleDTO>,
}

/// The module-fields section of an assembled view: the modules with no
/// category, then one `CategoryDTO` per distinct reachable category.
#[derive(Debug)]
pub struct FieldsDTO {
    pub modules: Vec<ModuleDTO>,
    pub categories: Option<Vec<CategoryDTO>>,
}

/// What a module looks like once reduced for output.
pub open spec fn dto_of(m: Module) -> ModuleDTO {
    ModuleDTO { uuid: m.uuid, title: m.title, content: m.content }
}

/// The reduction of a whole row sequence, in row order.
pub open spec fn dtos_of(ms: Seq<Module>) -> Seq<ModuleDTO>
    decreases ms.len(),
{
    if ms.len() == 0 {
        Seq::empty()
    } else {
        dtos_of(ms.drop_last()).push(dto_of(ms.last()))
    }
}

/// The modules owned by page `pid`, in row order.
pub open spec fn of_page(ms: Seq<Module>, pid: i32) -> Seq<Module>
    decreases ms.len(),
{
    if ms.len() == 0 {
        Seq::empty()
    } else {
        let rest = of_page(ms.drop_last(), pid);
        if ms.last().page_id == pid {
            rest.push(ms.last())
        } else {
            rest
        }
    }
}

/// The modules owned by page `pid` that belong to no category, in row order.
pub open spec fn page_uncategorized(ms: Seq<Module>, pid: i32) -> Seq<Module>
    decreases ms.len(),
{
    if ms.len() == 0 {
        Seq::empty()
    } else {
        let rest = page_uncategorized(ms.drop_last(), pid);
        if ms.last().page_id == pid && ms.last().category is None {
            rest.push(ms.last())
        } else {
            rest
        }
    }
}

/// The modules of any page that belong to no category, in row order.
/// This is the fixed pre-filter of the modules' `read_all`.
pub open spec fn all_uncategorized(ms: Seq<Module>) -> Seq<Module>
    decreases ms.len(),
{
    if ms.len() == 0 {
        Seq::empty()
    } else {
        let rest = all_uncategorized(ms.drop_last());
        if ms.last().category is None {
            rest.push(ms.last())
        } else {
            rest
        }
    }
}

/// The modules that belong to the category with internal id `cid`,
/// in row order, whatever page owns them.
pub open spec fn of_category(ms: Seq<Module>, cid: i32) -> Seq<Module>
    decreases ms.len(),
{
    if ms.len() == 0 {
        Seq::empty()
    } else {
        let rest = of_category(ms.drop_last(), cid);
        if ms.last().category == Some(cid) {
            rest.push(ms.last())
        } else {
            rest
        }
    }
}

/// Whether some module of page `pid` references the category with id `cid`.
pub open spec fn category_referenced(ms: Seq<Module>, pid: i32, cid: i32) -> bool {
    exists|j: int|
        0 <= j < ms.len() && (#[trigger] ms[j]).page_id == pid && ms[j].category == Some(cid)
}

pub proof fn lemma_dtos_push(ms: Seq<Module>, m: Module)
    ensures
        dtos_of(ms.push(m)) == dtos_of(ms).push(dto_of(m)),
{
    assert(ms.push(m).drop_last() =~= ms);
}

pub proof fn lemma_of_page_push(ms: Seq<Module>, m: Module, pid: i32)
    ensures
        of_page(ms.push(m), pid) == if m.page_id == pid {
            of_page(ms, pid).push(m)
        } else {
            of_page(ms, pid)
        },
{
    assert(ms.push(m).drop_last() =~= ms);
}

pub proof fn lemma_page_uncategorized_push(ms: Seq<Module>, m: Module, pid: i32)
    ensures
        page_uncategorized(ms.push(m), pid) == if m.page_id == pid && m.category is None {
            page_uncategorized(ms, pid).push(m)
        } else {
            page_uncategorized(ms, pid)
        },
{
    assert(ms.push(m).drop_last() =~= ms);
}

pub proof fn lemma_all_uncategorized_push(ms: Seq<Module>, m: Module)
    ensures
        all_uncategorized(ms.push(m)) == if m.category is None {
            all_uncategorized(ms).push(m)
        } else {
            all_uncategorized(ms)
        },
{
    assert(ms.push(m).drop_last() =~= ms);
}

pub proof fn lemma_of_category_push(ms: Seq<Module>, m: Module, cid: i32)
    ensures
        of_category(ms.push(m), cid) == if m.category == Some(cid) {
            of_category(ms, cid).push(m)
        } else {
            of_category(ms, cid)
        },
{
    assert(ms.push(m).drop_last() =~= ms);
}

impl From<Module> for ModuleDTO {
    fn from(module: Module) -> (r: Self) {
        ModuleDTO { uuid: module.uuid, title: module.title, content: module.content }
    }
}

impl vstd::std_specs::convert::FromSpecImpl<Module> for ModuleDTO {
    open spec fn obeys_from_spec() -> bool {
        true
    }

    open spec fn from_spec(m: Module) -> Self {
        dto_of(m)
    }
}

impl From<ModuleCategory> for ModuleCategoryDTO {
    fn from(category: ModuleCategory) -> (r: Self) {
        ModuleCategoryDTO { uuid: category.uuid, title: category.title }
    }
}

impl vstd::std_specs::convert::FromSpecImpl<ModuleCategory> for ModuleCategoryDTO {
    open spec fn obeys_from_spec() -> bool {
        true
    }

    open spec fn from_spec(c: ModuleCategory) -> Self {
        ModuleCategoryDTO { uuid: c.uuid, title: c.title }
    }
}

/// Whether `row` collides with the write representation `new` on the
/// string key or on an explicitly requested internal id.
pub open spec fn module_conflict_at(row: Module, new: MutModule) -> bool {
    row.uuid@ == new.uuid.unwrap()@ || (new.id is Some && row.id == new.id.unwrap())
}

/// Whether any stored row collides with `new`.
pub open spec fn module_conflicts(rows: Seq<Module>, new: MutModule) -> bool {
    exists|i: int| 0 <= i < rows.len() && #[trigger] module_conflict_at(rows[i], new)
}

/// The largest internal id in use, at least 0; the store assigns one past
/// it when the caller leaves the id open.
pub open spec fn max_module_id(rows: Seq<Module>) -> int
    decreases rows.len(),
{
    if rows.len() == 0 {
        0
    } else {
        let rest = max_module_id(rows.drop_last());
        if rows.last().id > rest {
            rows.last().id as int
        } else {
            rest
        }
    }
}

pub proof fn lemma_max_module_id_bound(rows: Seq<Module>)
    ensures
        max_module_id(rows) >= 0,
        forall|j: int| 0 <= j < rows.len() ==> (#[trigger] rows[j]).id <= max_module_id(rows),
    decreases rows.len(),
{
    if rows.len() > 0 {
        lemma_max_module_id_bound(rows.drop_last());
        assert forall|j: int|
            0 <= j < rows.len() implies (#[trigger] rows[j]).id <= max_module_id(rows) by {
            if j < rows.len() - 1 {
                assert(rows.drop_last()[j] == rows[j]);
            }
        }
    }
}

/// The row a successful create stores for `new`.
pub open spec fn mk_module(rows: Seq<Module>, new: MutModule) -> Module {
    Module {
        id: if new.id is Some {
            new.id.unwrap()
        } else {
            (max_module_id(rows) + 1) as i32
        },
        uuid: new.uuid.unwrap(),
        module_type_id: new.module_type_id,
        title: new.title,
        page_id: new.page_id,
        content: new.content,
        category: new.category,
    }
}

/// The modules table after a create: unchanged on a missing key, on a
/// key or id conflict (insert-or-ignore) and on id exhaustion; extended
/// by one row otherwise.
pub open spec fn module_create_rows(rows: Seq<Module>, new: MutModule) -> Seq<Module> {
    if new.uuid is None {
        rows
    } else if module_conflicts(rows, new) {
        rows
    } else if new.id is None && max_module_id(rows) + 1 > i32::MAX {
        rows
    } else {
        rows.push(mk_module(rows, new))
    }
}

/// The count or error a create returns, matching `module_create_rows`.
pub open spec fn module_create_result(rows: Seq<Module>, new: MutModule) -> Result<usize, CmsError> {
    if new.uuid is None {
        Err(CmsError::StoreError)
    } else if module_conflicts(rows, new) {
        Ok(0)
    } else if new.id is None && max_module_id(rows) + 1 > i32::MAX {
        Err(CmsError::StoreError)
    } else {
        Ok(1)
    }
}

/// The row an update leaves in place of `m`: every writable field is
/// replaced, the identity fields stay.
pub open spec fn module_updated(m: Module, new: MutModule) -> Module {
    Module {
        id: m.id,
        uuid: m.uuid,
        module_type_id: new.module_type_id,
        title: new.title,
        page_id: new.page_id,
        content: new.content,
        category: new.category,
    }
}

fn max_id_of_modules(rows: &Vec<Module>) -> (r: i32)
    ensures
        r as int == max_module_id(rows@),
        r >= 0,
{
    let n = rows.len();
    let mut mx: i32 = 0;
    let mut i: usize = 0;
    while i < n
        invariant
            n == rows@.len(),
            0 <= i <= n,
            mx as int == max_module_id(rows@.take(i as int)),
            mx >= 0,
        decreases n - i,
    {
        proof {
            assert(rows@.take(i as int + 1).drop_last() =~= rows@.take(i as int));
            assert(rows@.take(i as int + 1).last() == rows@[i as int]);
        }
        if rows[i].id > mx {
            mx = rows[i].id;
        }
        i += 1;
    }
    proof {
        assert(rows@.take(n as int) =~= rows@);
    }
    mx
}

impl Module {
    /// Inserts one module row. On a string-key or id conflict the call is
    /// a silent no-op returning 0 affected rows (insert-or-ignore), so a
    /// repeated create does not surface a duplicate-key error. A write
    /// representation without a string key, or an exhausted id space, is
    /// a store error.
    pub fn create(s: &mut Store, new: &MutModule) -> (r: Result<usize, CmsError>)
        requires
            old(s).wf(),
        ensures
            final(s).wf(),
            final(s).pages@ == old(s).pages@,
            final(s).categories@ == old(s).categories@,
            final(s).modules@ == module_create_rows(old(s).modules@, *new),
            r == module_create_result(old(s).modules@, *new),
    {
        let u: String = match &new.uuid {
            Some(x) => x.clone(),
            None => {
                return Err(CmsError::StoreError);
            },
        };
        let n = s.modules.len();
        let mut i: usize = 0;
        while i < n
            invariant
                n == s.modules@.len(),
                0 <= i <= n,
                old(s).wf(),
                s.pages@ == old(s).pages@,
                s.modules@ == old(s).modules@,
                s.categories@ == old(s).categories@,
                new.uuid is Some && u@ == new.uuid.unwrap()@,
                forall|j: int| 0 <= j < i ==> !module_conflict_at(#[trigger] old(s).modules@[j], *new),
            decreases n - i,
        {
            let uuid_hit = s.modules[i].uuid == u;
            let id_hit = match new.id {
                Some(v) => s.modules[i].id == v,
                None => false,
            };
            if uuid_hit || id_hit {
                proof {
                    assert(module_conflict_at(old(s).modules@[i as int], *new));
                }
                return Ok(0);
            }
            i += 1;
        }
        let id: i32 = match new.id {
            Some(v) => v,
            None => {
                let mx = max_id_of_modules(&s.modules);
                if mx == i32::MAX {
                    return Err(CmsError::StoreError);
                }
                mx + 1
            },
        };
        let row = Module {
            id,
            uuid: u,
            module_type_id: new.module_type_id,
            title: new.title.clone(),
            page_id: new.page_id,
            content: new.content.clone(),
            category: new.category,
        };
        proof {
            let ms = old(s).modules@;
            assert(row == mk_module(ms, *new));
            lemma_max_module_id_bound(ms);
            let ms2 = ms.push(row);
            assert forall|a: int, b: int|
                0 <= a < b < ms2.len() implies (#[trigger] ms2[a]).uuid@ != (
            #[trigger] ms2[b]).uuid@ && ms2[a].id != ms2[b].id by {
                if b < ms.len() {
                    assert(ms[a].uuid@ != ms[b].uuid@ && ms[a].id != ms[b].id);
                } else {
                    assert(!module_conflict_at(ms[a], *new));
                }
            }
        }
        s.modules.push(row);
        Ok(1)
    }

    /// Fetches the one module with string key `id`, reduced for output.
    /// Zero matching rows is the hard error `NotFound`, never a default.
    pub fn read_one(s: &Store, id: String) -> (r: Result<ModuleDTO, CmsError>)
        requires
            s.wf(),
        ensures
            match r {
                Ok(d) => exists|i: int|
                    0 <= i < s.modules@.len() && (#[trigger] s.modules@[i]).uuid@ == id@ && d
                        == dto_of(s.modules@[i]),
                Err(e) => e == CmsError::NotFound && forall|i: int|
                    0 <= i < s.modules@.len() ==> (#[trigger] s.modules@[i]).uuid@ != id@,
            },
    {
        let n = s.modules.len();
        let mut i: usize = 0;
        while i < n
            invariant
                n == s.modules@.len(),
                0 <= i <= n,
                forall|j: int| 0 <= j < i ==> (#[trigger] s.modules@[j]).uuid@ != id@,
            decreases n - i,
        {
            if s.modules[i].uuid == id {
                let m = &s.modules[i];
                return Ok(ModuleDTO {
                    uuid: m.uuid.clone(),
                    title: m.title.clone(),
                    content: m.content.clone(),
                });
            }
            i += 1;
        }
        Err(CmsError::NotFound)
    }

    /// Scans the whole modules table through its fixed pre-filter: only
    /// the modules with no category are returned, in row order.
    pub fn read_all(s: &Store) -> (r: Vec<ModuleDTO>)
        ensures
            r@ == dtos_of(all_uncategorized(s.modules@)),
    {
        let n = s.modules.len();
        let mut out: Vec<ModuleDTO> = Vec::new();
        let mut i: usize = 0;
        while i < n
            invariant
                n == s.modules@.len(),
                0 <= i <= n,
                out@ == dtos_of(all_uncategorized(s.modules@.take(i as int))),
            decreases n - i,
        {
            proof {
                assert(s.modules@.take(i as int + 1).drop_last() =~= s.modules@.take(i as int));
                assert(s.modules@.take(i as int + 1).last() == s.modules@[i as int]);
                lemma_all_uncategorized_push(s.modules@.take(i as int), s.modules@[i as int]);
                if s.modules@[i as int].category is None {
                    lemma_dtos_push(
                        all_uncategorized(s.modules@.take(i as int)),
                        s.modules@[i as int],
                    );
                }
            }
            let m = &s.modules[i];
            if m.category.is_none() {
                out.push(ModuleDTO {
                    uuid: m.uuid.clone(),
                    title: m.title.clone(),
                    content: m.content.clone(),
                });
            }
            i += 1;
        }
        proof {
            assert(s.modules@.take(n as int) =~= s.modules@);
        }
        out
    }

    /// Replaces every writable field of the module with string key `id`.
    /// 0 affected rows means no row matched. Callers must not use the
    /// count to detect a missing row: a relational store may report 0
    /// for a match whose values were already as written; here a match
    /// always counts 1.
    pub fn update(s: &mut Store, id: String, new: &MutModule) -> (r: Result<usize, CmsError>)
        requires
            old(s).wf(),
        ensures
            final(s).wf(),
            final(s).pages@ == old(s).pages@,
            final(s).categories@ == old(s).categories@,
            (forall|i: int|
                0 <= i < old(s).modules@.len() ==> (#[trigger] old(s).modules@[i]).uuid@ != id@)
                ==> final(s).modules@ == old(s).modules@ && r == Ok::<usize, CmsError>(0),
            forall|i: int|
                0 <= i < old(s).modules@.len() && (#[trigger] old(s).modules@[i]).uuid@ == id@
                    ==> final(s).modules@ == old(s).modules@.update(
                    i,
                    module_updated(old(s).modules@[i], *new),
                ) && r == Ok::<usize, CmsError>(1),
    {
        let n = s.modules.len();
        let mut i: usize = 0;
        while i < n
            invariant
                n == s.modules@.len(),
                0 <= i <= n,
                old(s).wf(),
                s.pages@ == old(s).pages@,
                s.modules@ == old(s).modules@,
                s.categories@ == old(s).categories@,
                forall|j: int| 0 <= j < i ==> (#[trigger] s.modules@[j]).uuid@ != id@,
            decreases n - i,
        {
            if s.modules[i].uuid == id {
                let updated = Module {
                    id: s.modules[i].id,
                    uuid: s.modules[i].uuid.clone(),
                    module_type_id: new.module_type_id,
                    title: new.title.clone(),
                    page_id: new.page_id,
                    content: new.content.clone(),
                    category: new.category,
                };
                proof {
                    let ms = old(s).modules@;
                    assert(updated == module_updated(ms[i as int], *new));
                    let ms2 = ms.update(i as int, updated);
                    assert forall|a: int, b: int|
                        0 <= a < b < ms2.len() implies (#[trigger] ms2[a]).uuid@ != (
                    #[trigger] ms2[b]).uuid@ && ms2[a].id != ms2[b].id by {
                        assert(ms[a].uuid@ != ms[b].uuid@ && ms[a].id != ms[b].id);
                    }
                }
                s.modules.set(i, updated);
                return Ok(1);
            }
            i += 1;
        }
        Ok(0)
    }

    /// Removes the module with string key `id`; the count is 0 when
    /// nothing matched.
    pub fn delete(s: &mut Store, id: String) -> (r: Result<usize, CmsError>)
        requires
            old(s).wf(),
        ensures
            final(s).wf(),
            final(s).pages@ == old(s).pages@,
            final(s).categories@ == old(s).categories@,
            (forall|i: int|
                0 <= i < old(s).modules@.len() ==> (#[trigger] old(s).modules@[i]).uuid@ != id@)
                ==> final(s).modules@ == old(s).modules@ && r == Ok::<usize, CmsError>(0),
            forall|i: int|
                0 <= i < old(s).modules@.len() && (#[trigger] old(s).modules@[i]).uuid@ == id@
                    ==> final(s).modules@ == old(s).modules@.remove(i) && r == Ok::<
                usize,
                CmsError,
            >(1),
    {
        let n = s.modules.len();
        let mut i: usize = 0;
        while i < n
            invariant
                n == s.modules@.len(),
                0 <= i <= n,
                old(s).wf(),
                s.pages@ == old(s).pages@,
                s.modules@ == old(s).modules@,
                s.categories@ == old(s).categories@,
                forall|j: int| 0 <= j < i ==> (#[trigger] s.modules@[j]).uuid@ != id@,
            decreases n - i,
        {
            if s.modules[i].uuid == id {
                proof {
                    let ms = old(s).modules@;
                    let ms2 = ms.remove(i as int);
                    assert forall|a: int, b: int|
                        0 <= a < b < ms2.len() implies (#[trigger] ms2[a]).uuid@ != (
                    #[trigger] ms2[b]).uuid@ && ms2[a].id != ms2[b].id by {
                        let a0 = if a < i as int { a } else { a + 1 };
                        let b0 = if b < i as int { b } else { b + 1 };
                        assert(ms2[a] == ms[a0] && ms2[b] == ms[b0]);
                        assert(ms[a0].uuid@ != ms[b0].uuid@ && ms[a0].id != ms[b0].id);
                    }
                }
                s.modules.remove(i);
                return Ok(1);
            }
            i += 1;
        }
        Ok(0)
    }
}

/// Whether `row` collides with the write representation `new` on the
/// string key or on an explicitly requested internal id.
pub open spec fn category_conflict_at(row: ModuleCategory, new: MutModuleCategory) -> bool {
    row.uuid@ == new.uuid.unwrap()@ || (new.id is Some && row.id == new.id.unwrap())
}

/// Whether any stored category row collides with `new`.
pub open spec fn category_conflicts(rows: Seq<ModuleCategory>, new: MutModuleCategory) -> bool {
    exists|i: int| 0 <= i < rows.len() && #[trigger] category_conflict_at(rows[i], new)
}

/// The largest internal category id in use, at least 0.
pub open spec fn max_category_id(rows: Seq<ModuleCategory>) -> int
    decreases rows.len(),
{
    if rows.len() == 0 {
        0
    } else {
        let rest = max_category_id(rows.drop_last());
        if rows.last().id > rest {
            rows.last().id as int
        } else {
            rest
        }
    }
}

pub proof fn lemma_max_category_id_bound(rows: Seq<ModuleCategory>)
    ensures
        max_category_id(rows) >= 0,
        forall|j: int| 0 <= j < rows.len() ==> (#[trigger] rows[j]).id <= max_category_id(rows),
    decreases rows.len(),
{
    if rows.len() > 0 {
        lemma_max_category_id_bound(rows.drop_last());
        assert forall|j: int|
            0 <= j < rows.len() implies (#[trigger] rows[j]).id <= max_category_id(rows) by {
            if j < rows.len() - 1 {
                assert(rows.drop_last()[j] == rows[j]);
            }
        }
    }
}

/// The row a successful category create stores for `new`.
pub open spec fn mk_category(rows: Seq<ModuleCategory>, new: MutModuleCategory) -> ModuleCategory {
    ModuleCategory {
        id: if new.id is Some {
            new.id.unwrap()
        } else {
            (max_category_id(rows) + 1) as i32
        },
        uuid: new.uuid.unwrap(),
        title: new.title,
        page_id: new.page_id,
    }
}

/// The categories table after a create; same insert-or-ignore shape as
/// the other entities.
pub open spec fn category_create_rows(
    rows: Seq<ModuleCategory>,
    new: MutModuleCategory,
) -> Seq<ModuleCategory> {
    if new.uuid is None {
        rows
    } else if category_conflicts(rows, new) {
        rows
    } else if new.id is None && max_category_id(rows) + 1 > i32::MAX {
        rows
    } else {
        rows.push(mk_category(rows, new))
    }
}

/// The count or error a category create returns.
pub open spec fn category_create_result(
    rows: Seq<ModuleCategory>,
    new: MutModuleCategory,
) -> Result<usize, CmsError> {
    if new.uuid is None {
        Err(CmsError::StoreError)
    } else if category_conflicts(rows, new) {
        Ok(0)
    } else if new.id is None && max_category_id(rows) + 1 > i32::MAX {
        Err(CmsError::StoreError)
    } else {
        Ok(1)
    }
}

/// The row a category update leaves in place of `c`.
pub open spec fn category_updated(c: ModuleCategory, new: MutModuleCategory) -> ModuleCategory {
    ModuleCategory { id: c.id, uuid: c.uuid, title: new.title, page_id: new.page_id }
}

fn max_id_of_categories(rows: &Vec<ModuleCategory>) -> (r: i32)
    ensures
        r as int == max_category_id(rows@),
        r >= 0,
{
    let n = rows.len();
    let mut mx: i32 = 0;
    let mut i: usize = 0;
    while i < n
        invariant
            n == rows@.len(),
            0 <= i <= n,
            mx as int == max_category_id(rows@.take(i as int)),
            mx >= 0,
        decreases n - i,
    {
        proof {
            assert(rows@.take(i as int + 1).drop_last() =~= rows@.take(i as int));
            assert(rows@.take(i as int + 1).last() == rows@[i as int]);
        }
        if rows[i].id > mx {
            mx = rows[i].id;
        }
        i += 1;
    }
    proof {
        assert(rows@.take(n as int) =~= rows@);
    }
    mx
}

impl ModuleCategory {
    /// Inserts one category row, with the same insert-or-ignore create
    /// semantics as the other entities.
    pub fn create(s: &mut Store, new: &MutModuleCategory) -> (r: Result<usize, CmsError>)
        requires
            old(s).wf(),
        ensures
            final(s).wf(),
            final(s).pages@ == old(s).pages@,
            final(s).modules@ == old(s).modules@,
            final(s).categories@ == category_create_rows(old(s).categories@, *new),
            r == category_create_result(old(s).categories@, *new),
    {
        let u: String = match &new.uuid {
            Some(x) => x.clone(),
            None => {
                return Err(CmsError::StoreError);
            },
        };
        let n = s.categories.len();
        let mut i: usize = 0;
        while i < n
            invariant
                n == s.categories@.len(),
                0 <= i <= n,
                old(s).wf(),
                s.pages@ == old(s).pages@,
                s.modules@ == old(s).modules@,
                s.categories@ == old(s).categories@,
                new.uuid is Some && u@ == new.uuid.unwrap()@,
                forall|j: int|
                    0 <= j < i ==> !category_conflict_at(#[trigger] old(s).categories@[j], *new),
            decreases n - i,
        {
            let uuid_hit = s.categories[i].uuid == u;
            let id_hit = match new.id {
                Some(v) => s.categories[i].id == v,
                None => false,
            };
            if uuid_hit || id_hit {
                proof {
                    assert(category_conflict_at(old(s).categories@[i as int], *new));
                }
                return Ok(0);
            }
            i += 1;
        }
        let id: i32 = match new.id {
            Some(v) => v,
            None => {
                let mx = max_id_of_categories(&s.categories);
                if mx == i32::MAX {
                    return Err(CmsError::StoreError);
                }
                mx + 1
            },
        };
        let row = ModuleCategory { id, uuid: u, title: new.title.clone(), page_id: new.page_id };
        proof {
            let cs = old(s).categories@;
            assert(row == mk_category(cs, *new));
            lemma_max_category_id_bound(cs);
            let cs2 = cs.push(row);
            assert forall|a: int, b: int|
                0 <= a < b < cs2.len() implies (#[trigger] cs2[a]).uuid@ != (
            #[trigger] cs2[b]).uuid@ && cs2[a].id != cs2[b].id by {
                if b < cs.len() {
                    assert(cs[a].uuid@ != cs[b].uuid@ && cs[a].id != cs[b].id);
                } else {
                    assert(!category_conflict_at(cs[a], *new));
                }
            }
        }
        s.categories.push(row);
        Ok(1)
    }

    /// Fetches the one category with string key `id`. Zero matching rows
    /// is the hard error `NotFound`.
    pub fn read_one(s: &Store, id: String) -> (r: Result<ModuleCategory, CmsError>)
        requires
            s.wf(),
        ensures
            match r {
                Ok(c) => exists|i: int|
                    0 <= i < s.categories@.len() && (#[trigger] s.categories@[i]).uuid@ == id@ && c
                        == s.categories@[i],
                Err(e) => e == CmsError::NotFound && forall|i: int|
                    0 <= i < s.categories@.len() ==> (#[trigger] s.categories@[i]).uuid@ != id@,
            },
    {
        let n = s.categories.len();
        let mut i: usize = 0;
        while i < n
            invariant
                n == s.categories@.len(),
                0 <= i <= n,
                forall|j: int| 0 <= j < i ==> (#[trigger] s.categories@[j]).uuid@ != id@,
            decreases n - i,
        {
            if s.categories[i].uuid == id {
                let c = &s.categories[i];
                return Ok(ModuleCategory {
                    id: c.id,
                    uuid: c.uuid.clone(),
                    title: c.title.clone(),
                    page_id: c.page_id,
                });
            }
            i += 1;
        }
        Err(CmsError::NotFound)
    }

    /// Scans the whole categories table, in row order.
    pub fn read_all(s: &Store) -> (r: Vec<ModuleCategory>)
        ensures
            r@ == s.categories@,
    {
        let n = s.categories.len();
        let mut out: Vec<ModuleCategory> = Vec::new();
        let mut i: usize = 0;
        while i < n
            invariant
                n == s.categories@.len(),
                0 <= i <= n,
                out@ == s.categories@.take(i as int),
            decreases n - i,
        {
            let c = &s.categories[i];
            out.push(ModuleCategory {
                id: c.id,
                uuid: c.uuid.clone(),
                title: c.title.clone(),
                page_id: c.page_id,
            });
            proof {
                assert(s.categories@.take(i as int + 1) =~= s.categories@.take(i as int).push(
                    s.categories@[i as int],
                ));
            }
            i += 1;
        }
        proof {
            assert(s.categories@.take(n as int) =~= s.categories@);
        }
        out
    }

    /// Replaces every writable field of the category with string key `id`;
    /// 0 affected rows means no row matched.
    pub fn update(s: &mut Store, id: String, new: &MutModuleCategory) -> (r: Result<
        usize,
        CmsError,
    >)
        requires
            old(s).wf(),
        ensures
            final(s).wf(),
            final(s).pages@ == old(s).pages@,
            final(s).modules@ == old(s).modules@,
            (forall|i: int|
                0 <= i < old(s).categories@.len() ==> (#[trigger] old(s).categories@[i]).uuid@
                    != id@) ==> final(s).categories@ == old(s).categories@ && r == Ok::<
                usize,
                CmsError,
            >(0),
            forall|i: int|
                0 <= i < old(s).categories@.len() && (#[trigger] old(s).categories@[i]).uuid@ == id@
                    ==> final(s).categories@ == old(s).categories@.update(
                    i,
                    category_updated(old(s).categories@[i], *new),
                ) && r == Ok::<usize, CmsError>(1),
    {
        let n = s.categories.len();
        let mut i: usize = 0;
        while i < n
            invariant
                n == s.categories@.len(),
                0 <= i <= n,
                old(s).wf(),
                s.pages@ == old(s).pages@,
                s.modules@ == old(s).modules@,
                s.categories@ == old(s).categories@,
                forall|j: int| 0 <= j < i ==> (#[trigger] s.categories@[j]).uuid@ != id@,
            decreases n - i,
        {
            if s.categories[i].uuid == id {
                let updated = ModuleCategory {
                    id: s.categories[i].id,
                    uuid: s.categories[i].uuid.clone(),
                    title: new.title.clone(),
                    page_id: new.page_id,
                };
                proof {
                    let cs = old(s).categories@;
                    assert(updated == category_updated(cs[i as int], *new));
                    let cs2 = cs.update(i as int, updated);
                    assert forall|a: int, b: int|
                        0 <= a < b < cs2.len() implies (#[trigger] cs2[a]).uuid@ != (
                    #[trigger] cs2[b]).uuid@ && cs2[a].id != cs2[b].id by {
                        assert(cs[a].uuid@ != cs[b].uuid@ && cs[a].id != cs[b].id);
                    }
                }
                s.categories.set(i, updated);
                return Ok(1);
            }
            i += 1;
        }
        Ok(0)
    }

    /// Removes the category with string key `id`; the count is 0 when
    /// nothing matched.
    pub fn delete(s: &mut Store, id: String) -> (r: Result<usize, CmsError>)
        requires
            old(s).wf(),
        ensures
            final(s).wf(),
            final(s).pages@ == old(s).pages@,
            final(s).modules@ == old(s).modules@,
            (forall|i: int|
                0 <= i < old(s).categories@.len() ==> (#[trigger] old(s).categories@[i]).uuid@
                    != id@) ==> final(s).categories@ == old(s).categories@ && r == Ok::<
                usize,
                CmsError,
            >(0),
            forall|i: int|
                0 <= i < old(s).categories@.len() && (#[trigger] old(s).categories@[i]).uuid@ == id@
                    ==> final(s).categories@ == old(s).categories@.remove(i) && r == Ok::<
                usize,
                CmsError,
            >(1),
    {
        let n = s.categories.len();
        let mut i: usize = 0;
        while i < n
            invariant
                n == s.categories@.len(),
                0 <= i <= n,
                old(s).wf(),
                s.pages@ == old(s).pages@,
                s.modules@ == old(s).modules@,
                s.categories@ == old(s).categories@,
                forall|j: int| 0 <= j < i ==> (#[trigger] s.categories@[j]).uuid@ != id@,
            decreases n - i,
        {
            if s.categories[i].uuid == id {
                proof {
                    let cs = old(s).categories@;
                    let cs2 = cs.remove(i as int);
                    assert forall|a: int, b: int|
                        0 <= a < b < cs2.len() implies (#[trigger] cs2[a]).uuid@ != (
                    #[trigger] cs2[b]).uuid@ && cs2[a].id != cs2[b].id by {
                        let a0 = if a < i as int { a } else { a + 1 };
                        let b0 = if b < i as int { b } else { b + 1 };
                        assert(cs2[a] == cs[a0] && cs2[b] == cs[b0]);
                        assert(cs[a0].uuid@ != cs[b0].uuid@ && cs[a0].id != cs[b0].id);
                    }
                }
                s.categories.remove(i);
                return Ok(1);
            }
            i += 1;
        }
        Ok(0)
    }
}

} // verus!
