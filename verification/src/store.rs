use vstd::prelude::*;

use crate::module_models::{Module, ModuleCategory};
use crate::page_models::Page;

verus! {

/// The backing relational store: three tables, each a row sequence.
/// Every entity operation and both composition entry points go through a
/// value of this type; one value stands for one connection's view of the
/// database.
#[derive(Debug)]
pub struct Store {
    pub pages: Vec<Page>,
    pub modules: Vec<Module>,
    pub categories: Vec<ModuleCategory>,
}

/// The pages table keeps string keys, internal ids and routable URLs
/// unique; the URL uniqueness is the page invariant the store enforces.
pub open spec fn pages_wf(rows: Seq<Page>) -> bool {
    forall|i: int, j: int|
        0 <= i < j < rows.len() ==> (#[trigger] rows[i]).guid@ != (#[trigger] rows[j]).guid@
            && rows[i].id != rows[j].id && rows[i].page_url@ != rows[j].page_url@
}

/// The modules table keeps string keys and internal ids unique.
pub open spec fn modules_wf(rows: Seq<Module>) -> bool {
    forall|i: int, j: int|
        0 <= i < j < rows.len() ==> (#[trigger] rows[i]).uuid@ != (#[trigger] rows[j]).uuid@
            && rows[i].id != rows[j].id
}

/// The categories table keeps string keys and internal ids unique.
pub open spec fn categories_wf(rows: Seq<ModuleCategory>) -> bool {
    forall|i: int, j: int|
        0 <= i < j < rows.len() ==> (#[trigger] rows[i]).uuid@ != (#[trigger] rows[j]).uuid@
            && rows[i].id != rows[j].id
}

impl Store {
    /// Key and id uniqueness of all three tables. Established by `new`,
    /// preserved by every mutating operation of the persistence contract.
    pub open spec fn wf(self) -> bool {
        pages_wf(self.pages@) && modules_wf(self.modules@) && categories_wf(self.categories@)
    }

    /// An empty store.
    pub fn new() -> (s: Store)
        ensures
            s.wf(),
            s.pages@ == Seq::<Page>::empty(),
            s.modules@ == Seq::<Module>::empty(),
            s.categories@ == Seq::<ModuleCategory>::empty(),
    {
        let s = Store { pages: Vec::new(), modules: Vec::new(), categories: Vec::new() };
        proof {
            assert(s.pages@ =~= Seq::<Page>::empty());
            assert(s.modules@ =~= Seq::<Module>::empty());
            assert(s.categories@ =~= Seq::<ModuleCategory>::empty());
        }
        s
    }
}

/// In a well-formed categories table, equal internal ids mean the same row.
pub proof fn lemma_category_id_injective(rows: Seq<ModuleCategory>, c1: ModuleCategory, c2: ModuleCategory)
    requires
        categories_wf(rows),
        rows.contains(c1),
        rows.contains(c2),
        c1.id == c2.id,
    ensures
        c1 == c2,
{
    let i1 = choose|i: int| 0 <= i < rows.len() && rows[i] == c1;
    let i2 = choose|i: int| 0 <= i < rows.len() && rows[i] == c2;
    if i1 < i2 {
        assert(rows[i1].uuid@ != rows[i2].uuid@);
    } else if i2 < i1 {
        assert(rows[i2].uuid@ != rows[i1].uuid@);
    }
}

/// In a well-formed categories table, equal string keys mean the same row.
pub proof fn lemma_category_uuid_injective(rows: Seq<ModuleCategory>, c1: ModuleCategory, c2: ModuleCategory)
    requires
        categories_wf(rows),
        rows.contains(c1),
        rows.contains(c2),
        c1.uuid@ == c2.uuid@,
    ensures
        c1 == c2,
{
    let i1 = choose|i: int| 0 <= i < rows.len() && rows[i] == c1;
    let i2 = choose|i: int| 0 <= i < rows.len() && rows[i] == c2;
    if i1 < i2 {
        assert(rows[i1].uuid@ != rows[i2].uuid@);
    } else if i2 < i1 {
        assert(rows[i2].uuid@ != rows[i1].uuid@);
    }
}

/// In a well-formed modules table, equal string keys mean the same row.
pub proof fn lemma_module_uuid_injective(rows: Seq<Module>, m1: Module, m2: Module)
    requires
        modules_wf(rows),
        rows.contains(m1),
        rows.contains(m2),
        m1.uuid@ == m2.uuid@,
    ensures
        m1 == m2,
{
    let i1 = choose|i: int| 0 <= i < rows.len() && rows[i] == m1;
    let i2 = choose|i: int| 0 <= i < rows.len() && rows[i] == m2;
    if i1 < i2 {
        assert(rows[i1].uuid@ != rows[i2].uuid@);
    } else if i2 < i1 {
        assert(rows[i2].uuid@ != rows[i1].uuid@);
    }
}

} // verus!
