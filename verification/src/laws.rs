use vstd::prelude::*;

use vstd::seq_lib::lemma_multiset_commutative;

use crate::errors::CmsError;
use crate::module_models::{
    category_create_result, category_create_rows, category_conflict_at, category_conflicts,
    category_referenced, dto_of, dtos_of, max_category_id, max_module_id, mk_category, mk_module,
    module_conflict_at, module_conflicts, module_create_result, module_create_rows, of_category,
    of_page, page_uncategorized, Module, ModuleCategory, ModuleDTO, MutModule, MutModuleCategory,
};
use crate::page_models::{
    cat_entry_ok, edit_view_ok, max_page_id, mk_page, page_conflict_at, page_conflicts,
    page_create_result, page_create_rows, MutPage, Page, PageModuleDTO,
};
use crate::store::{lemma_module_uuid_injective, Store};

verus! {

// ---------------------------------------------------------------------
// Create is idempotent: repeating a create with the same write
// representation leaves the table exactly as after the first call, and a
// repeated create after a successful one is the silent no-op Ok(0).
// ---------------------------------------------------------------------

/// Page create idempotence: the second identical create changes nothing,
/// whatever clock values the two calls carry, and reports 0 affected rows
/// after a successful first create instead of erring.
pub proof fn lemma_page_create_idempotent(rows: Seq<Page>, new: MutPage, now1: i64, now2: i64)
    requires
        new.uuid is Some,
    ensures
        page_create_rows(page_create_rows(rows, new, now1), new, now2) == page_create_rows(
            rows,
            new,
            now1,
        ),
        page_create_result(rows, new) == Ok::<usize, CmsError>(1) ==> page_create_result(
            page_create_rows(rows, new, now1),
            new,
        ) == Ok::<usize, CmsError>(0),
{
    let rows1 = page_create_rows(rows, new, now1);
    if !page_conflicts(rows, new) && !(new.id is None && max_page_id(rows) + 1 > i32::MAX) {
        let p = mk_page(rows, new, now1);
        assert(rows1 == rows.push(p));
        assert(rows1[rows.len() as int] == p);
        assert(page_conflict_at(rows1[rows.len() as int], new));
        assert(page_conflicts(rows1, new));
    }
}

/// Module create idempotence.
pub proof fn lemma_module_create_idempotent(rows: Seq<Module>, new: MutModule)
    requires
        new.uuid is Some,
    ensures
        module_create_rows(module_create_rows(rows, new), new) == module_create_rows(rows, new),
        module_create_result(rows, new) == Ok::<usize, CmsError>(1) ==> module_create_result(
            module_create_rows(rows, new),
            new,
        ) == Ok::<usize, CmsError>(0),
{
    let rows1 = module_create_rows(rows, new);
    if !module_conflicts(rows, new) && !(new.id is None && max_module_id(rows) + 1 > i32::MAX) {
        let m = mk_module(rows, new);
        assert(rows1 == rows.push(m));
        assert(rows1[rows.len() as int] == m);
        assert(module_conflict_at(rows1[rows.len() as int], new));
        assert(module_conflicts(rows1, new));
    }
}

/// Category create idempotence.
pub proof fn lemma_category_create_idempotent(rows: Seq<ModuleCategory>, new: MutModuleCategory)
    requires
        new.uuid is Some,
    ensures
        category_create_rows(category_create_rows(rows, new), new) == category_create_rows(
            rows,
            new,
        ),
        category_create_result(rows, new) == Ok::<usize, CmsError>(1) ==> category_create_result(
            category_create_rows(rows, new),
            new,
        ) == Ok::<usize, CmsError>(0),
{
    let rows1 = category_create_rows(rows, new);
    if !category_conflicts(rows, new) && !(new.id is None && max_category_id(rows) + 1
        > i32::MAX) {
        let c = mk_category(rows, new);
        assert(rows1 == rows.push(c));
        assert(rows1[rows.len() as int] == c);
        assert(category_conflict_at(rows1[rows.len() as int], new));
        assert(category_conflicts(rows1, new));
    }
}

// ---------------------------------------------------------------------
// Shape of the spec-level selections that the assembled views carry.
// ---------------------------------------------------------------------

/// The reduction keeps length and positions: entry `i` of the reduced
/// list is exactly the reduction of row `i`.
pub proof fn lemma_dtos_of_characterize(ms: Seq<Module>)
    ensures
        dtos_of(ms).len() == ms.len(),
        forall|i: int| 0 <= i < ms.len() ==> dtos_of(ms)[i] == dto_of(#[trigger] ms[i]),
    decreases ms.len(),
{
    if ms.len() > 0 {
        lemma_dtos_of_characterize(ms.drop_last());
        assert forall|i: int| 0 <= i < ms.len() implies dtos_of(ms)[i] == dto_of(#[trigger] ms[i]) by {
            if i < ms.len() - 1 {
                assert(ms.drop_last()[i] == ms[i]);
            }
        }
    }
}

/// A row of the source appears, reduced, in the reduced list.
proof fn lemma_dtos_of_contains(ms: Seq<Module>, x: Module)
    requires
        ms.contains(x),
    ensures
        dtos_of(ms).contains(dto_of(x)),
{
    lemma_dtos_of_characterize(ms);
    let j = choose|j: int| 0 <= j < ms.len() && ms[j] == x;
    assert(dtos_of(ms)[j] == dto_of(x));
}

/// Every member of a category selection carries that category reference
/// and comes from the table.
proof fn lemma_of_category_characterize(ms: Seq<Module>, cid: i32)
    ensures
        forall|i: int|
            0 <= i < of_category(ms, cid).len() ==> (#[trigger] of_category(ms, cid)[i]).category
                == Some(cid) && ms.contains(of_category(ms, cid)[i]),
    decreases ms.len(),
{
    if ms.len() > 0 {
        lemma_of_category_characterize(ms.drop_last(), cid);
        let sub = of_category(ms.drop_last(), cid);
        let oc = of_category(ms, cid);
        assert forall|i: int|
            0 <= i < oc.len() implies (#[trigger] oc[i]).category == Some(cid) && ms.contains(
                oc[i],
            ) by {
            if i < sub.len() {
                assert(oc[i] == sub[i]);
                assert(ms.drop_last().contains(sub[i]));
                let j = choose|j: int|
                    0 <= j < ms.drop_last().len() && ms.drop_last()[j] == sub[i];
                assert(ms[j] == oc[i]);
            } else {
                assert(oc[i] == ms.last());
                assert(ms[ms.len() - 1] == oc[i]);
            }
        }
    }
}

/// An uncategorized module of the page stands in the page's
/// uncategorized selection.
proof fn lemma_page_uncategorized_contains(ms: Seq<Module>, pid: i32, k: int)
    requires
        0 <= k < ms.len(),
        ms[k].page_id == pid,
        ms[k].category is None,
    ensures
        page_uncategorized(ms, pid).contains(ms[k]),
    decreases ms.len(),
{
    if k == ms.len() - 1 {
        let rest = page_uncategorized(ms.drop_last(), pid);
        assert(page_uncategorized(ms, pid)[rest.len() as int] == ms[k]);
    } else {
        assert(ms.drop_last()[k] == ms[k]);
        lemma_page_uncategorized_contains(ms.drop_last(), pid, k);
        let sub = page_uncategorized(ms.drop_last(), pid);
        let j = choose|j: int| 0 <= j < sub.len() && sub[j] == ms[k];
        assert(page_uncategorized(ms, pid)[j] == ms[k]);
    }
}

// ---------------------------------------------------------------------
// A page with zero modules assembles to an empty editing view.
// ---------------------------------------------------------------------

/// With no module owned by the page, both spec-level selections are
/// empty and no category is reachable.
pub proof fn lemma_empty_page_modules(ms: Seq<Module>, pid: i32)
    requires
        forall|j: int| 0 <= j < ms.len() ==> (#[trigger] ms[j]).page_id != pid,
    ensures
        page_uncategorized(ms, pid) == Seq::<Module>::empty(),
        of_page(ms, pid) == Seq::<Module>::empty(),
        forall|cid: i32| !(#[trigger] category_referenced(ms, pid, cid)),
    decreases ms.len(),
{
    if ms.len() > 0 {
        assert forall|j: int|
            0 <= j < ms.drop_last().len() implies (#[trigger] ms.drop_last()[j]).page_id != pid by {
            assert(ms.drop_last()[j] == ms[j]);
        }
        lemma_empty_page_modules(ms.drop_last(), pid);
        assert(ms.last() == ms[ms.len() - 1]);
    }
    assert forall|cid: i32| !(#[trigger] category_referenced(ms, pid, cid)) by {
        if category_referenced(ms, pid, cid) {
            let j = choose|j: int|
                0 <= j < ms.len() && (#[trigger] ms[j]).page_id == pid && ms[j].category == Some(
                    cid,
                );
            assert(false);
        }
    }
}

/// A page with zero modules: the editing view's uncategorized list and
/// its category list are both empty.
pub proof fn lemma_empty_page_edit_view(s: Store, p: Page, dto: PageModuleDTO)
    requires
        edit_view_ok(s, p, dto),
        forall|j: int| 0 <= j < s.modules@.len() ==> (#[trigger] s.modules@[j]).page_id != p.id,
    ensures
        dto.fields.modules@.len() == 0,
        dto.fields.categories.unwrap()@.len() == 0,
{
    lemma_empty_page_modules(s.modules@, p.id);
    assert(dtos_of(Seq::<Module>::empty()) == Seq::<ModuleDTO>::empty());
    let cs = dto.fields.categories.unwrap()@;
    if cs.len() > 0 {
        assert(cat_entry_ok(s, p.id, cs[0]));
        let c = choose|c: ModuleCategory|
            #[trigger] s.categories@.contains(c) && category_referenced(s.modules@, p.id, c.id)
                && cs[0].uuid@ == c.uuid@ && cs[0].title@ == c.title@ && cs[0].modules@ == dtos_of(
                of_category(s.modules@, c.id),
            );
        assert(!category_referenced(s.modules@, p.id, c.id));
        assert(false);
    }
}

// ---------------------------------------------------------------------
// An uncategorized module is listed exactly once: in the uncategorized
// list, and in no category bucket.
// ---------------------------------------------------------------------

/// A module of the page with no category appears in the editing view's
/// uncategorized list and in none of its category buckets.
pub proof fn lemma_uncategorized_in_edit_view(s: Store, p: Page, dto: PageModuleDTO, k: int)
    requires
        s.wf(),
        edit_view_ok(s, p, dto),
        0 <= k < s.modules@.len(),
        s.modules@[k].page_id == p.id,
        s.modules@[k].category is None,
    ensures
        dto.fields.modules@.contains(dto_of(s.modules@[k])),
        forall|j: int|
            0 <= j < dto.fields.categories.unwrap()@.len() ==> !(#[trigger] dto.fields.categories.unwrap()@[j]).modules@.contains(
                dto_of(s.modules@[k]),
            ),
{
    let ms = s.modules@;
    let m = ms[k];
    lemma_page_uncategorized_contains(ms, p.id, k);
    lemma_dtos_of_contains(page_uncategorized(ms, p.id), m);
    let cs = dto.fields.categories.unwrap()@;
    assert forall|j: int|
        0 <= j < cs.len() implies !(#[trigger] cs[j]).modules@.contains(dto_of(m)) by {
        assert(cat_entry_ok(s, p.id, cs[j]));
        let c = choose|c: ModuleCategory|
            #[trigger] s.categories@.contains(c) && category_referenced(ms, p.id, c.id)
                && cs[j].uuid@ == c.uuid@ && cs[j].title@ == c.title@ && cs[j].modules@ == dtos_of(
                of_category(ms, c.id),
            );
        if cs[j].modules@.contains(dto_of(m)) {
            let oc = of_category(ms, c.id);
            lemma_dtos_of_characterize(oc);
            let t = choose|t: int| 0 <= t < dtos_of(oc).len() && dtos_of(oc)[t] == dto_of(m);
            lemma_of_category_characterize(ms, c.id);
            assert(ms.contains(oc[t]));
            assert(ms[k] == m);
            assert(ms.contains(m));
            lemma_module_uuid_injective(ms, oc[t], m);
            assert(false);
        }
    }
}

// ---------------------------------------------------------------------
// A category bucket carries exactly its member modules; with none, the
// empty list. (A category that no module of the page references is not
// reachable by the inner join, so it assembles no bucket at all; this
// states the part that holds of every bucket the join produces.)
// ---------------------------------------------------------------------

/// A category id that no module references selects the empty sequence.
pub proof fn lemma_category_without_modules(ms: Seq<Module>, cid: i32)
    requires
        forall|j: int| 0 <= j < ms.len() ==> (#[trigger] ms[j]).category != Some(cid),
    ensures
        of_category(ms, cid) == Seq::<Module>::empty(),
    decreases ms.len(),
{
    if ms.len() > 0 {
        assert forall|j: int|
            0 <= j < ms.drop_last().len() implies (#[trigger] ms.drop_last()[j]).category != Some(
                cid,
            ) by {
            assert(ms.drop_last()[j] == ms[j]);
        }
        lemma_category_without_modules(ms.drop_last(), cid);
        assert(ms.last() == ms[ms.len() - 1]);
    }
}

// ---------------------------------------------------------------------
// Grouping completeness: the uncategorized list and the category buckets
// together carry exactly the page's modules — none dropped, none
// duplicated.
// ---------------------------------------------------------------------

/// All category buckets of the listed categories, concatenated.
pub open spec fn grouped_modules(ms: Seq<Module>, cats: Seq<ModuleCategory>) -> Seq<Module>
    decreases cats.len(),
{
    if cats.len() == 0 {
        Seq::empty()
    } else {
        grouped_modules(ms, cats.drop_last()) + of_category(ms, cats.last().id)
    }
}

/// Whether `cid` is the id of one of the listed categories.
pub open spec fn cat_ids_contain(cats: Seq<ModuleCategory>, cid: i32) -> bool {
    exists|k: int| 0 <= k < cats.len() && (#[trigger] cats[k]).id == cid
}

proof fn lemma_grouped_ms_empty(cats: Seq<ModuleCategory>)
    ensures
        grouped_modules(Seq::<Module>::empty(), cats) == Seq::<Module>::empty(),
    decreases cats.len(),
{
    if cats.len() > 0 {
        lemma_grouped_ms_empty(cats.drop_last());
        assert(grouped_modules(Seq::<Module>::empty(), cats) =~= Seq::<Module>::empty());
    }
}

#[verifier::rlimit(100)]
proof fn lemma_grouped_step(ms: Seq<Module>, cats: Seq<ModuleCategory>)
    requires
        forall|k: int, l: int| 0 <= k < l < cats.len() ==> (#[trigger] cats[k]).id != (#[trigger] cats[l]).id,
        ms.len() > 0,
    ensures
        grouped_modules(ms, cats).to_multiset() == if ms.last().category is Some && cat_ids_contain(
            cats,
            ms.last().category.unwrap(),
        ) {
            grouped_modules(ms.drop_last(), cats).to_multiset().insert(ms.last())
        } else {
            grouped_modules(ms.drop_last(), cats).to_multiset()
        },
    decreases cats.len(),
{
    broadcast use vstd::seq_lib::group_to_multiset_ensures;
    broadcast use vstd::multiset::group_multiset_axioms;

    let m = ms.last();
    let ms0 = ms.drop_last();
    if cats.len() == 0 {
        assert forall|cid: i32| !(#[trigger] cat_ids_contain(cats, cid)) by {
            if cat_ids_contain(cats, cid) {
                let k = choose|k: int| 0 <= k < cats.len() && (#[trigger] cats[k]).id == cid;
                assert(false);
            }
        }
    } else {
        let cs0 = cats.drop_last();
        let c = cats.last();
        assert forall|k: int, l: int|
            0 <= k < l < cs0.len() implies (#[trigger] cs0[k]).id != (#[trigger] cs0[l]).id by {
            assert(cs0[k] == cats[k] && cs0[l] == cats[l]);
        }
        lemma_grouped_step(ms, cs0);
        lemma_multiset_commutative(grouped_modules(ms, cs0), of_category(ms, c.id));
        lemma_multiset_commutative(grouped_modules(ms0, cs0), of_category(ms0, c.id));
        // whether the last module feeds the last bucket
        if m.category == Some(c.id) {
            assert(of_category(ms, c.id) == of_category(ms0, c.id).push(m));
            // c.id is not among the earlier listed ids
            assert(!cat_ids_contain(cs0, c.id)) by {
                if cat_ids_contain(cs0, c.id) {
                    let k = choose|k: int| 0 <= k < cs0.len() && (#[trigger] cs0[k]).id == c.id;
                    assert(cats[k] == cs0[k]);
                    assert(cats[k].id != cats[cats.len() - 1].id);
                    assert(false);
                }
            }
            assert(cat_ids_contain(cats, c.id)) by {
                assert(cats[cats.len() - 1].id == c.id);
            }
            let a1 = grouped_modules(ms, cs0);
            let b1 = of_category(ms, c.id);
            let a0 = grouped_modules(ms0, cs0);
            let b0 = of_category(ms0, c.id);
            assert(grouped_modules(ms, cats) == a1 + b1);
            assert(grouped_modules(ms0, cats) == a0 + b0);
            assert(a1.to_multiset() == a0.to_multiset());
            assert(b0.push(m).to_multiset() =~= b0.to_multiset().insert(m));
            assert(grouped_modules(ms, cats).to_multiset() =~= a1.to_multiset().add(
                b1.to_multiset(),
            ));
            assert(grouped_modules(ms0, cats).to_multiset() =~= a0.to_multiset().add(
                b0.to_multiset(),
            ));
            assert(a0.to_multiset().add(b0.to_multiset().insert(m)) =~= a0.to_multiset().add(
                b0.to_multiset(),
            ).insert(m));
            assert(grouped_modules(ms, cats).to_multiset() =~= grouped_modules(
                ms0,
                cats,
            ).to_multiset().insert(m));
        } else {
            assert(of_category(ms, c.id) == of_category(ms0, c.id));
            if m.category is Some && cat_ids_contain(cs0, m.category.unwrap()) {
                assert(cat_ids_contain(cats, m.category.unwrap())) by {
                    let k = choose|k: int|
                        0 <= k < cs0.len() && (#[trigger] cs0[k]).id == m.category.unwrap();
                    assert(cats[k] == cs0[k]);
                }
                let a1 = grouped_modules(ms, cs0);
                let b1 = of_category(ms, c.id);
                let a0 = grouped_modules(ms0, cs0);
                let b0 = of_category(ms0, c.id);
                assert(grouped_modules(ms, cats) == a1 + b1);
                assert(grouped_modules(ms0, cats) == a0 + b0);
                assert(a1.to_multiset() == a0.to_multiset().insert(m));
                assert(b1 == b0);
                assert(grouped_modules(ms, cats).to_multiset() =~= a1.to_multiset().add(
                    b1.to_multiset(),
                ));
                assert(grouped_modules(ms0, cats).to_multiset() =~= a0.to_multiset().add(
                    b0.to_multiset(),
                ));
                assert(a0.to_multiset().insert(m).add(b0.to_multiset()) =~= a0.to_multiset().add(
                    b0.to_multiset(),
                ).insert(m));
                assert(grouped_modules(ms, cats).to_multiset() =~= grouped_modules(
                    ms0,
                    cats,
                ).to_multiset().insert(m));
            } else {
                if m.category is Some && cat_ids_contain(cats, m.category.unwrap()) {
                    let k = choose|k: int|
                        0 <= k < cats.len() && (#[trigger] cats[k]).id == m.category.unwrap();
                    if k < cats.len() - 1 {
                        assert(cs0[k] == cats[k]);
                        assert(cat_ids_contain(cs0, m.category.unwrap()));
                        assert(false);
                    } else {
                        assert(m.category == Some(c.id));
                        assert(false);
                    }
                }
                assert(grouped_modules(ms, cats).to_multiset() =~= grouped_modules(
                    ms0,
                    cats,
                ).to_multiset());
            }
        }
    }
}

/// Grouping completeness: given the distinct category list, where every
/// category reference of the page's modules resolves to a listed
/// category and no other page's module references a listed one, the
/// uncategorized selection plus all buckets is, as a multiset, exactly
/// the page's module set.
pub proof fn lemma_grouping_complete(ms: Seq<Module>, cats: Seq<ModuleCategory>, pid: i32)
    requires
        forall|k: int, l: int| 0 <= k < l < cats.len() ==> (#[trigger] cats[k]).id != (#[trigger] cats[l]).id,
        forall|j: int|
            0 <= j < ms.len() && (#[trigger] ms[j]).page_id == pid && ms[j].category is Some
                ==> cat_ids_contain(cats, ms[j].category.unwrap()),
        forall|j: int|
            0 <= j < ms.len() && (#[trigger] ms[j]).category is Some && cat_ids_contain(
                cats,
                ms[j].category.unwrap(),
            ) ==> ms[j].page_id == pid,
    ensures
        page_uncategorized(ms, pid).to_multiset().add(grouped_modules(ms, cats).to_multiset())
            == of_page(ms, pid).to_multiset(),
    decreases ms.len(),
{
    broadcast use vstd::seq_lib::group_to_multiset_ensures;
    broadcast use vstd::multiset::group_multiset_axioms;

    if ms.len() == 0 {
        lemma_grouped_ms_empty(cats);
        assert(ms =~= Seq::<Module>::empty());
        assert(grouped_modules(ms, cats) =~= Seq::<Module>::empty());
        assert(page_uncategorized(ms, pid).to_multiset().add(
            grouped_modules(ms, cats).to_multiset(),
        ) =~= of_page(ms, pid).to_multiset());
    } else {
        let ms0 = ms.drop_last();
        let m = ms.last();
        assert forall|j: int|
            0 <= j < ms0.len() && (#[trigger] ms0[j]).page_id == pid && ms0[j].category is Some
                implies cat_ids_contain(cats, ms0[j].category.unwrap()) by {
            assert(ms0[j] == ms[j]);
        }
        assert forall|j: int|
            0 <= j < ms0.len() && (#[trigger] ms0[j]).category is Some && cat_ids_contain(
                cats,
                ms0[j].category.unwrap(),
            ) implies ms0[j].page_id == pid by {
            assert(ms0[j] == ms[j]);
        }
        lemma_grouping_complete(ms0, cats, pid);
        lemma_grouped_step(ms, cats);
        let u0 = page_uncategorized(ms0, pid).to_multiset();
        let g0 = grouped_modules(ms0, cats).to_multiset();
        let p0 = of_page(ms0, pid).to_multiset();
        assert(ms[ms.len() - 1] == m);
        if m.page_id == pid && m.category is None {
            assert(page_uncategorized(ms, pid) == page_uncategorized(ms0, pid).push(m));
            assert(of_page(ms, pid) == of_page(ms0, pid).push(m));
            assert(u0.insert(m).add(g0) =~= u0.add(g0).insert(m));
        } else if m.page_id == pid && m.category is Some {
            assert(cat_ids_contain(cats, m.category.unwrap()));
            assert(page_uncategorized(ms, pid) == page_uncategorized(ms0, pid));
            assert(of_page(ms, pid) == of_page(ms0, pid).push(m));
            assert(u0.add(g0.insert(m)) =~= u0.add(g0).insert(m));
        } else {
            assert(page_uncategorized(ms, pid) == page_uncategorized(ms0, pid));
            assert(of_page(ms, pid) == of_page(ms0, pid));
            if m.category is Some && cat_ids_contain(cats, m.category.unwrap()) {
                assert(m.page_id == pid);
                assert(false);
            }
        }
    }
}

// ---------------------------------------------------------------------
// The title-keyed editing lookup keeps one module per title: the module
// inserted last.
// ---------------------------------------------------------------------

/// Inserting two modules under the same title leaves exactly the later
/// one bound to it.
pub proof fn lemma_title_last_write_wins(
    m0: Map<Seq<char>, Module>,
    t: Seq<char>,
    m1: Module,
    m2: Module,
)
    ensures
        m0.insert(t, m1).insert(t, m2) == m0.insert(t, m2),
{
    assert(m0.insert(t, m1).insert(t, m2) =~= m0.insert(t, m2));
}

} // verus!
