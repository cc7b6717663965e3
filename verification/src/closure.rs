//! Which records and variants an interface needs: those that its routines
//! name, those that these mention, and so on.
//!
//! A definition mentions another where the other's name stands somewhere in
//! the text between its braces. That finds every type it refers to, and now
//! and then one it does not.

use crate::emit::{body_chars, body_text};
use crate::interface::{
    case_models, parameter_models, type_def_models, Case, CompositeTypeDef, Parameter, TypeDefModel,
};
use crate::parse::strings;
use crate::text::{chars_of, contains, same, search_from, string_of, views};
use crate::types::{lemma_tuple_model, models, TypeExpr};
use vstd::prelude::*;

verus! {

/// The first position at or after `from` of a definition of `table` that
/// declares `name`.
pub open spec fn lookup(table: Seq<TypeDefModel>, name: Seq<char>, from: int) -> Option<int>
    decreases table.len() - from,
{
    if from < 0 || from >= table.len() {
        None
    } else if table[from].declared() == name {
        Some(from)
    } else {
        lookup(table, name, from + 1)
    }
}

/// What `lookup` finds is a position of `table` not before `from`, holds a
/// definition of that name, and is the first such position.
pub proof fn lemma_lookup(table: Seq<TypeDefModel>, name: Seq<char>, from: int)
    requires
        0 <= from,
    ensures
        match lookup(table, name, from) {
            Some(i) => from <= i < table.len() && table[i].declared() == name && forall|j: int|
                from <= j < i ==> (#[trigger] table[j]).declared() != name,
            None => forall|j: int|
                from <= j < table.len() ==> (#[trigger] table[j]).declared() != name,
        },
    decreases table.len() - from,
{
    if from < table.len() && table[from].declared() != name {
        lemma_lookup(table, name, from + 1);
    }
}

/// The names that the definition at `i` mentions among those that the first
/// `n` definitions of `table` declare: every name but its own that stands
/// in the text between its braces, in the order of the table.
pub open spec fn mentions_upto(table: Seq<TypeDefModel>, i: int, n: int) -> Seq<Seq<char>>
    decreases n,
{
    if n <= 0 {
        Seq::empty()
    } else {
        let before = mentions_upto(table, i, n - 1);
        let key = table[n - 1].declared();
        if key != table[i].declared() && contains(body_text(table[i]), key) {
            before.push(key)
        } else {
            before
        }
    }
}

/// The names that the definition at `i` mentions among those that `table`
/// declares.
pub open spec fn mentions(table: Seq<TypeDefModel>, i: int) -> Seq<Seq<char>> {
    mentions_upto(table, i, table.len() as int)
}

/// The number of positions that `visited` does not mark.
pub open spec fn unvisited(visited: Seq<bool>) -> nat
    decreases visited.len(),
{
    if visited.len() == 0 {
        0
    } else {
        unvisited(visited.drop_last()) + if visited.last() {
            0nat
        } else {
            1nat
        }
    }
}

/// Marking a position that was not marked leaves one position fewer
/// unmarked.
pub proof fn lemma_mark(visited: Seq<bool>, i: int)
    requires
        0 <= i < visited.len(),
        !visited[i],
    ensures
        unvisited(visited.update(i, true)) + 1 == unvisited(visited),
    decreases visited.len(),
{
    let marked = visited.update(i, true);
    if i == visited.len() - 1 {
        assert(marked.drop_last() =~= visited.drop_last());
    } else {
        assert(marked.drop_last() =~= visited.drop_last().update(i, true));
        lemma_mark(visited.drop_last(), i);
    }
}

/// The definitions found from the names `work` still to look at, last
/// first, when those at the positions that `visited` marks have been looked
/// at and `found` holds their positions in the order of their finding.
///
/// A name that no definition declares is passed over, and so is one whose
/// definition has been looked at. Any other definition is found: its
/// position is marked and joins `found`, and the names it mentions are to
/// be looked at next.
pub open spec fn closure_from(
    table: Seq<TypeDefModel>,
    work: Seq<Seq<char>>,
    visited: Seq<bool>,
    found: Seq<int>,
) -> Seq<int>
    decreases unvisited(visited), work.len(),
{
    if work.len() == 0 || visited.len() != table.len() {
        found
    } else {
        match lookup(table, work.last(), 0) {
            None => closure_from(table, work.drop_last(), visited, found),
            Some(i) => {
                proof {
                    lemma_lookup(table, work.last(), 0);
                }
                if visited[i] {
                    closure_from(table, work.drop_last(), visited, found)
                } else {
                    proof {
                        lemma_mark(visited, i);
                    }
                    closure_from(
                        table,
                        work.drop_last() + mentions(table, i),
                        visited.update(i, true),
                        found.push(i),
                    )
                }
            },
        }
    }
}

/// The positions in `table` of the definitions that the names `seed` need,
/// in the order of their finding.
pub open spec fn closure_order(table: Seq<TypeDefModel>, seed: Seq<Seq<char>>) -> Seq<int> {
    closure_from(table, seed, Seq::new(table.len(), |i: int| false), Seq::empty())
}

/// The positions `v` as integers.
pub open spec fn positions(v: Seq<usize>) -> Seq<int> {
    Seq::new(v.len(), |i: int| v[i] as int)
}

/// The name that the definition `def` declares.
pub fn declared_name(def: &CompositeTypeDef) -> (r: Vec<char>)
    ensures
        r@ == def@.declared(),
{
    match def {
        CompositeTypeDef::Record { name, fields } => chars_of(name.as_str()),
        CompositeTypeDef::Variant { name, cases } => chars_of(name.as_str()),
    }
}

/// The first position of a definition of `table` that declares `name`.
pub fn find_definition(table: &Vec<CompositeTypeDef>, name: &Vec<char>) -> (r: Option<usize>)
    ensures
        match r {
            Some(i) => lookup(type_def_models(table@), name@, 0) == Some(i as int),
            None => lookup(type_def_models(table@), name@, 0) is None,
        },
{
    let mut i: usize = 0;
    while i < table.len()
        invariant
            i <= table.len(),
            lookup(type_def_models(table@), name@, 0) == lookup(
                type_def_models(table@),
                name@,
                i as int,
            ),
        decreases table.len() - i,
    {
        assert(type_def_models(table@)[i as int] == table@[i as int]@);
        if same(&declared_name(&table[i]), name) {
            return Some(i);
        }
        i = i + 1;
    }
    None
}

/// The names that the definition at `i` mentions among those that `table`
/// declares.
pub fn mentioned(table: &Vec<CompositeTypeDef>, i: usize) -> (r: Vec<Vec<char>>)
    requires
        i < table.len(),
    ensures
        views(r@) == mentions(type_def_models(table@), i as int),
{
    let ghost model = type_def_models(table@);
    let own = declared_name(&table[i]);
    let body = body_chars(&table[i]);
    assert(model[i as int] == table@[i as int]@);
    let mut out: Vec<Vec<char>> = Vec::new();
    let mut n: usize = 0;
    assert(views(out@) =~= mentions_upto(model, i as int, 0));
    while n < table.len()
        invariant
            n <= table.len(),
            i < table.len(),
            model == type_def_models(table@),
            own@ == model[i as int].declared(),
            body@ == body_text(model[i as int]),
            views(out@) == mentions_upto(model, i as int, n as int),
        decreases table.len() - n,
    {
        assert(model[n as int] == table@[n as int]@);
        let key = declared_name(&table[n]);
        if !same(&key, &own) && search_from(&body, &key, 0).is_some() {
            let ghost before = out@;
            out.push(key);
            assert(views(out@) =~= views(before).push(key@));
        }
        n = n + 1;
    }
    out
}

/// Finds the definitions of `table` that the names `seed` need: those that
/// `seed` names, those that these mention, and so on. Returns their
/// positions in `table`, in the order of their finding. A name that no
/// definition declares is passed over.
pub fn dependency_closure(seed: &Vec<String>, table: &Vec<CompositeTypeDef>) -> (order: Vec<usize>)
    ensures
        positions(order@) == closure_order(type_def_models(table@), strings(seed@)),
        forall|i: int| 0 <= i < order@.len() ==> #[trigger] order@[i] < table@.len(),
{
    let ghost model = type_def_models(table@);
    let mut work: Vec<Vec<char>> = Vec::new();
    let mut k: usize = 0;
    assert(views(work@) =~= strings(seed@).take(0));
    while k < seed.len()
        invariant
            k <= seed.len(),
            views(work@) == strings(seed@).take(k as int),
        decreases seed.len() - k,
    {
        let name = chars_of(seed[k].as_str());
        let ghost before = work@;
        work.push(name);
        assert(views(work@) =~= views(before).push(seed@[k as int]@));
        assert(strings(seed@).take(k + 1) =~= strings(seed@).take(k as int).push(
            seed@[k as int]@,
        ));
        k = k + 1;
    }
    assert(strings(seed@).take(seed.len() as int) == strings(seed@));
    let mut visited: Vec<bool> = Vec::new();
    let mut j: usize = 0;
    while j < table.len()
        invariant
            j <= table.len(),
            visited@.len() == j,
            forall|m: int| 0 <= m < j ==> !visited@[m],
        decreases table.len() - j,
    {
        visited.push(false);
        j = j + 1;
    }
    assert(visited@ =~= Seq::new(model.len(), |i: int| false));
    let mut found: Vec<usize> = Vec::new();
    assert(positions(found@) =~= Seq::<int>::empty());
    while work.len() > 0
        invariant
            model == type_def_models(table@),
            visited@.len() == table.len(),
            closure_from(model, views(work@), visited@, positions(found@))
                == closure_order(model, strings(seed@)),
            forall|i: int| 0 <= i < found@.len() ==> #[trigger] found@[i] < table@.len(),
        decreases unvisited(visited@), work.len(),
    {
        let ghost before = work@;
        let name = work.pop().unwrap();
        assert(views(before).last() == name@);
        assert(views(work@) =~= views(before).drop_last());
        match find_definition(table, &name) {
            None => {},
            Some(i) => {
                proof {
                    lemma_lookup(model, name@, 0);
                }
                if !visited[i] {
                    proof {
                        lemma_mark(visited@, i as int);
                    }
                    let mut more = mentioned(table, i);
                    let ghost rest = work@;
                    let ghost added = more@;
                    work.append(&mut more);
                    assert(views(work@) =~= views(rest)
                        + views(added));
                    visited.set(i, true);
                    let ghost found_before = found@;
                    found.push(i);
                    assert(positions(found@) =~= positions(found_before).push(i as int));
                }
            },
        }
    }
    found
}

/// A copy of the type expression `t`.
pub fn copy_type(t: &TypeExpr) -> (r: TypeExpr)
    ensures
        r@ == t@,
    decreases t,
{
    match t {
        TypeExpr::Primitive(p) => TypeExpr::Primitive(*p),
        TypeExpr::List(inner) => TypeExpr::List(Box::new(copy_type(inner))),
        TypeExpr::Option(inner) => TypeExpr::Option(Box::new(copy_type(inner))),
        TypeExpr::Tuple(items) => {
            let mut out: Vec<TypeExpr> = Vec::new();
            let mut i: usize = 0;
            while i < items.len()
                invariant
                    i <= items.len(),
                    t is Tuple && t->Tuple_0 == items,
                    out@.len() == i,
                    forall|k: int| 0 <= k < i ==> out@[k]@ == items@[k]@,
                decreases items.len() - i,
            {
                out.push(copy_type(&items[i]));
                i = i + 1;
            }
            let r = TypeExpr::Tuple(out);
            proof {
                lemma_tuple_model(r);
                lemma_tuple_model(*t);
                assert(models(out@) =~= models(items@));
            }
            r
        },
        TypeExpr::Result(ok, err) => TypeExpr::Result(
            Box::new(copy_type(ok)),
            Box::new(copy_type(err)),
        ),
        TypeExpr::Named(name) => TypeExpr::Named(string_of(&chars_of(name.as_str()))),
    }
}

/// A copy of the definition `def`.
pub fn copy_definition(def: &CompositeTypeDef) -> (r: CompositeTypeDef)
    ensures
        r@ == def@,
{
    match def {
        CompositeTypeDef::Record { name, fields } => {
            let mut out: Vec<Parameter> = Vec::new();
            let mut i: usize = 0;
            while i < fields.len()
                invariant
                    i <= fields.len(),
                    out@.len() == i,
                    forall|k: int| 0 <= k < i ==> out@[k]@ == fields@[k]@,
                decreases fields.len() - i,
            {
                out.push(
                    Parameter {
                        name: string_of(&chars_of(fields[i].name.as_str())),
                        ty: copy_type(&fields[i].ty),
                    },
                );
                i = i + 1;
            }
            assert(parameter_models(out@) =~= parameter_models(fields@));
            CompositeTypeDef::Record { name: string_of(&chars_of(name.as_str())), fields: out }
        },
        CompositeTypeDef::Variant { name, cases } => {
            let mut out: Vec<Case> = Vec::new();
            let mut i: usize = 0;
            while i < cases.len()
                invariant
                    i <= cases.len(),
                    out@.len() == i,
                    forall|k: int| 0 <= k < i ==> out@[k]@ == cases@[k]@,
                decreases cases.len() - i,
            {
                let payload = match &cases[i].payload {
                    Some(t) => Some(copy_type(t)),
                    None => None,
                };
                out.push(Case { name: string_of(&chars_of(cases[i].name.as_str())), payload });
                i = i + 1;
            }
            assert(case_models(out@) =~= case_models(cases@));
            CompositeTypeDef::Variant { name: string_of(&chars_of(name.as_str())), cases: out }
        },
    }
}

/// The definitions of `table` at the positions `order`, in that order.
pub open spec fn chosen(table: Seq<TypeDefModel>, order: Seq<int>) -> Seq<TypeDefModel> {
    Seq::new(order.len(), |i: int| table[order[i]])
}

/// The definitions of `table` that the names `seed` need, in the order of
/// their finding.
pub fn retained_types(seed: &Vec<String>, table: &Vec<CompositeTypeDef>) -> (r: Vec<
    CompositeTypeDef,
>)
    ensures
        type_def_models(r@) == chosen(
            type_def_models(table@),
            closure_order(type_def_models(table@), strings(seed@)),
        ),
{
    let order = dependency_closure(seed, table);
    let ghost model = type_def_models(table@);
    let ghost wanted = closure_order(model, strings(seed@));
    let mut out: Vec<CompositeTypeDef> = Vec::new();
    let mut i: usize = 0;
    while i < order.len()
        invariant
            i <= order.len(),
            model == type_def_models(table@),
            positions(order@) == wanted,
            out@.len() == i,
            forall|k: int| 0 <= k < order@.len() ==> #[trigger] order@[k] < table@.len(),
            forall|k: int| 0 <= k < i ==> out@[k]@ == model[order@[k] as int],
        decreases order.len() - i,
    {
        let at = order[i];
        assert(model[at as int] == table@[at as int]@);
        out.push(copy_definition(&table[at]));
        i = i + 1;
    }
    assert forall|k: int| 0 <= k < out@.len() implies type_def_models(out@)[k] == chosen(
        model,
        wanted,
    )[k] by {
        assert(positions(order@)[k] == order@[k]);
    }
    assert(type_def_models(out@) =~= chosen(model, wanted));
    out
}

} // verus!
