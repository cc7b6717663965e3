//! What is found for an interface leaves nothing out: a type that a found
//! definition refers to is found too, if the table declares it at all.

use crate::closure::{
    closure_from, closure_order, lemma_lookup, lemma_mark, lookup, mentions, mentions_upto,
    unvisited,
};
use crate::emit::{body_text, case_line, case_lines, field_line, field_lines, lines_text};
use crate::interface::{CaseModel, TypeDefModel};
use crate::text::{contains, lemma_find_from, occurs_at};
use crate::types::{idl_list, idl_text, TypeModel};
use vstd::prelude::*;

verus! {

/// `name` names a type somewhere in `t`.
pub open spec fn names(t: TypeModel, name: Seq<char>) -> bool
    decreases t,
{
    match t {
        TypeModel::Primitive(_) => false,
        TypeModel::List(inner) => names(*inner, name),
        TypeModel::Option(inner) => names(*inner, name),
        TypeModel::Tuple(items) => exists|i: int|
            0 <= i < items.len() && names(#[trigger] items[i], name),
        TypeModel::Result(ok, err) => names(*ok, name) || names(*err, name),
        TypeModel::Named(n) => n == name,
    }
}

/// The case `c` carries a type that `name` names a type in.
pub open spec fn case_names(c: CaseModel, name: Seq<char>) -> bool {
    c.payload matches Some(t) && names(t, name)
}

/// The definition `def` refers to the type `name`: `name` names a type
/// somewhere in one of its fields or cases.
pub open spec fn refers_to(def: TypeDefModel, name: Seq<char>) -> bool {
    match def {
        TypeDefModel::Record { fields, .. } => exists|i: int|
            0 <= i < fields.len() && names((#[trigger] fields[i]).ty, name),
        TypeDefModel::Variant { cases, .. } => exists|i: int|
            0 <= i < cases.len() && case_names(#[trigger] cases[i], name),
    }
}

/// `pat` stands somewhere in `s`.
pub open spec fn occurs(s: Seq<char>, pat: Seq<char>) -> bool {
    exists|k: int| occurs_at(s, pat, k)
}

/// What stands somewhere in a text is what the search for it finds.
pub proof fn lemma_occurs_contains(s: Seq<char>, pat: Seq<char>)
    requires
        occurs(s, pat),
    ensures
        contains(s, pat),
{
    let k = choose|k: int| occurs_at(s, pat, k);
    lemma_find_from(s, pat, 0);
}

/// What stands in a part of a text stands in the text.
pub proof fn lemma_occurs_within(a: Seq<char>, x: Seq<char>, b: Seq<char>, pat: Seq<char>)
    requires
        occurs(x, pat),
    ensures
        occurs(a + x + b, pat),
{
    let k = choose|k: int| occurs_at(x, pat, k);
    let whole = a + x + b;
    assert(whole.subrange(a.len() + k, a.len() + k + pat.len()) =~= x.subrange(k, k + pat.len()));
    assert(occurs_at(whole, pat, a.len() + k));
}

/// The name of a type in `t` stands in the text of `t`.
pub proof fn lemma_names_occur(t: TypeModel, name: Seq<char>)
    requires
        names(t, name),
    ensures
        occurs(idl_text(t), name),
    decreases t,
{
    let empty = Seq::<char>::empty();
    match t {
        TypeModel::Primitive(_) => {},
        TypeModel::List(inner) => {
            lemma_names_occur(*inner, name);
            lemma_occurs_within("list<"@, idl_text(*inner), ">"@, name);
        },
        TypeModel::Option(inner) => {
            lemma_names_occur(*inner, name);
            lemma_occurs_within("option<"@, idl_text(*inner), ">"@, name);
        },
        TypeModel::Tuple(items) => {
            let i = choose|i: int| 0 <= i < items.len() && names(#[trigger] items[i], name);
            lemma_names_occur(items[i], name);
            lemma_list_occurs(items, i, name);
            lemma_occurs_within("tuple<"@, idl_list(items), ">"@, name);
        },
        TypeModel::Result(ok, err) => {
            if names(*ok, name) {
                lemma_names_occur(*ok, name);
                lemma_occurs_within("result<"@, idl_text(*ok), ", "@ + idl_text(*err) + ">"@, name);
                assert(idl_text(t) =~= "result<"@ + idl_text(*ok) + (", "@ + idl_text(*err)
                    + ">"@));
            } else {
                lemma_names_occur(*err, name);
                lemma_occurs_within(
                    "result<"@ + idl_text(*ok) + ", "@,
                    idl_text(*err),
                    ">"@,
                    name,
                );
            }
        },
        TypeModel::Named(n) => {
            assert(n.subrange(0, n.len() as int) =~= n);
            assert(occurs_at(n, name, 0));
        },
    }
}

/// What stands in the text of one of `items` stands in the text of the
/// list.
pub proof fn lemma_list_occurs(items: Seq<TypeModel>, i: int, pat: Seq<char>)
    requires
        0 <= i < items.len(),
        occurs(idl_text(items[i]), pat),
    ensures
        occurs(idl_list(items), pat),
    decreases items.len(),
{
    let empty = Seq::<char>::empty();
    if items.len() == 1 {
    } else {
        let init = items.drop_last();
        if i == items.len() - 1 {
            lemma_occurs_within(idl_list(init) + ", "@, idl_text(items.last()), empty, pat);
            assert(idl_list(init) + ", "@ + idl_text(items.last()) + empty =~= idl_list(items));
        } else {
            assert(init[i] == items[i]);
            lemma_list_occurs(init, i, pat);
            lemma_occurs_within(empty, idl_list(init), ", "@ + idl_text(items.last()), pat);
            assert(empty + idl_list(init) + (", "@ + idl_text(items.last())) =~= idl_list(items));
        }
    }
}

/// What stands in one of `lines` stands in their text.
pub proof fn lemma_lines_occur(lines: Seq<Seq<char>>, i: int, pat: Seq<char>)
    requires
        0 <= i < lines.len(),
        occurs(lines[i], pat),
    ensures
        occurs(lines_text(lines), pat),
    decreases lines.len(),
{
    let empty = Seq::<char>::empty();
    let init = lines.drop_last();
    if i == lines.len() - 1 {
        lemma_occurs_within(lines_text(init), lines.last(), seq!['\n'], pat);
    } else {
        assert(init[i] == lines[i]);
        lemma_lines_occur(init, i, pat);
        lemma_occurs_within(empty, lines_text(init), lines.last() + seq!['\n'], pat);
        assert(empty + lines_text(init) + (lines.last() + seq!['\n']) =~= lines_text(lines));
    }
}

/// The name of a type that a definition refers to stands in the text
/// between the definition's braces.
pub proof fn lemma_reference_is_mentioned(def: TypeDefModel, name: Seq<char>)
    requires
        refers_to(def, name),
    ensures
        contains(body_text(def), name),
{
    match def {
        TypeDefModel::Record { fields, .. } => {
            let i = choose|i: int| 0 <= i < fields.len() && names((#[trigger] fields[i]).ty, name);
            let f = fields[i];
            lemma_names_occur(f.ty, name);
            lemma_occurs_within("        "@ + f.name + ": "@, idl_text(f.ty), ","@, name);
            assert(field_lines(fields)[i] == field_line(f));
            lemma_lines_occur(field_lines(fields), i, name);
        },
        TypeDefModel::Variant { cases, .. } => {
            let i = choose|i: int| 0 <= i < cases.len() && case_names(#[trigger] cases[i], name);
            let c = cases[i];
            let t = c.payload->0;
            lemma_names_occur(t, name);
            lemma_occurs_within("        "@ + c.name + "("@, idl_text(t), "),"@, name);
            assert(case_lines(cases)[i] == case_line(c));
            lemma_lines_occur(case_lines(cases), i, name);
        },
    }
    lemma_occurs_contains(body_text(def), name);
}

/// `k` is one of `s`.
pub open spec fn member(s: Seq<int>, k: int) -> bool {
    exists|m: int| 0 <= m < s.len() && s[m] == k
}

/// Every name of `work` that `table` declares is declared at a position
/// of `res`.
pub open spec fn resolved(table: Seq<TypeDefModel>, work: Seq<Seq<char>>, res: Seq<int>) -> bool {
    forall|w: int|
        0 <= w < work.len() ==> (lookup(table, #[trigger] work[w], 0) matches Some(j) ==> member(
            res,
            j,
        ))
}

/// The definition at `k` is the first of its name, and every name it
/// mentions that `table` declares is declared at a position of `res`.
pub open spec fn settled(table: Seq<TypeDefModel>, res: Seq<int>, k: int) -> bool {
    &&& 0 <= k < table.len()
    &&& lookup(table, table[k].declared(), 0) == Some(k)
    &&& resolved(table, mentions(table, k), res)
}

/// One more position is one more member.
pub proof fn lemma_member_push(s: Seq<int>, i: int, k: int)
    ensures
        member(s.push(i), k) <==> member(s, k) || k == i,
{
    if member(s, k) {
        let m = choose|m: int| 0 <= m < s.len() && s[m] == k;
        assert(s.push(i)[m] == k);
    }
    if k == i {
        assert(s.push(i)[s.len() as int] == i);
    }
    if member(s.push(i), k) {
        let m = choose|m: int| 0 <= m < s.push(i).len() && s.push(i)[m] == k;
        if m < s.len() {
            assert(s[m] == k);
        }
    }
}

/// What is found from a state of the search holds what had been found,
/// the definitions of the names still to look at, and with every
/// definition found since those of the names it mentions.
pub proof fn lemma_closure_from(
    table: Seq<TypeDefModel>,
    work: Seq<Seq<char>>,
    visited: Seq<bool>,
    found: Seq<int>,
)
    requires
        visited.len() == table.len(),
        forall|k: int| 0 <= k < table.len() ==> (#[trigger] visited[k] <==> member(found, k)),
    ensures
        forall|k: int| member(found, k) ==> member(closure_from(table, work, visited, found), k),
        resolved(table, work, closure_from(table, work, visited, found)),
        forall|k: int|
            member(closure_from(table, work, visited, found), k) && !member(found, k) ==> settled(
                table,
                closure_from(table, work, visited, found),
                k,
            ),
    decreases unvisited(visited), work.len(),
{
    let res = closure_from(table, work, visited, found);
    if work.len() == 0 {
    } else {
        let name = work.last();
        let rest = work.drop_last();
        lemma_lookup(table, name, 0);
        match lookup(table, name, 0) {
            None => {
                lemma_closure_from(table, rest, visited, found);
                assert forall|w: int| 0 <= w < work.len() implies (lookup(
                    table,
                    #[trigger] work[w],
                    0,
                ) matches Some(j) ==> member(res, j)) by {
                    if w < rest.len() {
                        assert(rest[w] == work[w]);
                    }
                }
            },
            Some(i) => {
                if visited[i] {
                    lemma_closure_from(table, rest, visited, found);
                    assert forall|w: int| 0 <= w < work.len() implies (lookup(
                        table,
                        #[trigger] work[w],
                        0,
                    ) matches Some(j) ==> member(res, j)) by {
                        if w < rest.len() {
                            assert(rest[w] == work[w]);
                        } else {
                            assert(member(found, i));
                        }
                    }
                } else {
                    lemma_mark(visited, i);
                    let marked = visited.update(i, true);
                    let more = found.push(i);
                    let next = rest + mentions(table, i);
                    assert forall|k: int| 0 <= k < table.len() implies (#[trigger] marked[k]
                        <==> member(more, k)) by {
                        lemma_member_push(found, i, k);
                        assert(visited[k] <==> member(found, k));
                    }
                    lemma_closure_from(table, next, marked, more);
                    assert forall|k: int| member(found, k) implies member(res, k) by {
                        lemma_member_push(found, i, k);
                    }
                    lemma_member_push(found, i, i);
                    assert(member(res, i));
                    assert forall|w: int| 0 <= w < work.len() implies (lookup(
                        table,
                        #[trigger] work[w],
                        0,
                    ) matches Some(j) ==> member(res, j)) by {
                        if w < rest.len() {
                            assert(next[w] == work[w]);
                        }
                    }
                    assert forall|k: int| member(res, k) && !member(found, k) implies settled(
                        table,
                        res,
                        k,
                    ) by {
                        lemma_member_push(found, i, k);
                        if k == i {
                            let ms = mentions(table, i);
                            assert forall|w: int| 0 <= w < ms.len() implies (lookup(
                                table,
                                #[trigger] ms[w],
                                0,
                            ) matches Some(j) ==> member(res, j)) by {
                                assert(next[rest.len() + w] == ms[w]);
                            }
                        }
                    }
                }
            },
        }
    }
}

/// A name but its own that stands in the text of the definition at `i`,
/// and that one of the first `n` definitions declares, is among the names
/// that the definition mentions.
pub proof fn lemma_mentions(table: Seq<TypeDefModel>, i: int, n: int, j: int)
    requires
        0 <= j < n <= table.len(),
        table[j].declared() != table[i].declared(),
        contains(body_text(table[i]), table[j].declared()),
    ensures
        exists|w: int|
            0 <= w < mentions_upto(table, i, n).len() && #[trigger] mentions_upto(table, i, n)[w]
                == table[j].declared(),
    decreases n,
{
    let now = mentions_upto(table, i, n);
    let before = mentions_upto(table, i, n - 1);
    if j == n - 1 {
        assert(now == before.push(table[j].declared()));
        assert(now[before.len() as int] == table[j].declared());
    } else {
        lemma_mentions(table, i, n - 1, j);
        let w = choose|w: int| 0 <= w < before.len() && #[trigger] before[w] == table[j].declared();
        assert(now[w] == table[j].declared());
    }
}

/// What is found is a position of the table, and the first position of a
/// definition of its name.
pub proof fn lemma_closure_in_table(table: Seq<TypeDefModel>, seed: Seq<Seq<char>>, k: int)
    requires
        member(closure_order(table, seed), k),
    ensures
        0 <= k < table.len(),
        lookup(table, table[k].declared(), 0) == Some(k),
{
    let fresh = Seq::new(table.len(), |i: int| false);
    let none = Seq::<int>::empty();
    lemma_closure_from(table, seed, fresh, none);
    assert(!member(none, k));
    assert(settled(table, closure_order(table, seed), k));
}

/// Nothing that is needed is left out: where a definition that was found
/// refers to a type that the table declares, the definition of that type
/// was found too.
pub proof fn lemma_closure_is_closed(
    table: Seq<TypeDefModel>,
    seed: Seq<Seq<char>>,
    k: int,
    name: Seq<char>,
)
    requires
        member(closure_order(table, seed), k),
        refers_to(table[k], name),
    ensures
        lookup(table, name, 0) matches Some(j) ==> member(closure_order(table, seed), j),
{
    let res = closure_order(table, seed);
    let fresh = Seq::new(table.len(), |i: int| false);
    let none = Seq::<int>::empty();
    lemma_closure_from(table, seed, fresh, none);
    assert(!member(none, k));
    assert(settled(table, res, k));
    lemma_lookup(table, name, 0);
    if lookup(table, name, 0) is Some {
        let j = lookup(table, name, 0)->0;
        if name == table[k].declared() {
            assert(j == k);
        } else {
            lemma_reference_is_mentioned(table[k], name);
            lemma_mentions(table, k, table.len() as int, j);
            let ms = mentions(table, k);
            let w = choose|w: int| 0 <= w < ms.len() && #[trigger] ms[w] == table[j].declared();
            assert(lookup(table, ms[w], 0) == Some(j));
        }
    }
}

/// Every name of the seed that the table declares has its definition
/// found.
pub proof fn lemma_closure_holds_seed(table: Seq<TypeDefModel>, seed: Seq<Seq<char>>, w: int)
    requires
        0 <= w < seed.len(),
    ensures
        lookup(table, seed[w], 0) matches Some(j) ==> member(closure_order(table, seed), j),
{
    let fresh = Seq::new(table.len(), |i: int| false);
    let none = Seq::<int>::empty();
    lemma_closure_from(table, seed, fresh, none);
}

/// No position stands twice in `s`.
pub open spec fn distinct(s: Seq<int>) -> bool {
    forall|a: int, b: int| 0 <= a < b < s.len() ==> s[a] != s[b]
}

/// Where the positions found so far are those that are marked, and none
/// of them stands twice, none stands twice in what is found in the end.
pub proof fn lemma_closure_distinct(
    table: Seq<TypeDefModel>,
    work: Seq<Seq<char>>,
    visited: Seq<bool>,
    found: Seq<int>,
)
    requires
        visited.len() == table.len(),
        forall|k: int| 0 <= k < table.len() ==> (#[trigger] visited[k] <==> member(found, k)),
        distinct(found),
    ensures
        distinct(closure_from(table, work, visited, found)),
    decreases unvisited(visited), work.len(),
{
    let res = closure_from(table, work, visited, found);
    if work.len() == 0 {
        assert(res == found);
    } else {
        let name = work.last();
        let rest = work.drop_last();
        lemma_lookup(table, name, 0);
        match lookup(table, name, 0) {
            None => {
                lemma_closure_distinct(table, rest, visited, found);
                assert(res == closure_from(table, rest, visited, found));
            },
            Some(i) => {
                if visited[i] {
                    lemma_closure_distinct(table, rest, visited, found);
                    assert(res == closure_from(table, rest, visited, found));
                } else {
                    lemma_mark(visited, i);
                    let marked = visited.update(i, true);
                    let more = found.push(i);
                    let next = rest + mentions(table, i);
                    assert(res == closure_from(table, next, marked, more));
                    assert forall|k: int| 0 <= k < table.len() implies (#[trigger] marked[k]
                        <==> member(more, k)) by {
                        lemma_member_push(found, i, k);
                        assert(visited[k] <==> member(found, k));
                    }
                    assert forall|a: int, b: int| 0 <= a < b < more.len() implies more[a]
                        != more[b] by {
                        if b == found.len() {
                            assert(more[a] == found[a]);
                            if found[a] == i {
                                assert(member(found, i));
                            }
                        }
                    }
                    lemma_closure_distinct(table, next, marked, more);
                }
            },
        }
    }
}

/// No definition is found twice.
pub proof fn lemma_closure_finds_once(table: Seq<TypeDefModel>, seed: Seq<Seq<char>>)
    ensures
        distinct(closure_order(table, seed)),
{
    let fresh = Seq::new(table.len(), |i: int| false);
    let none = Seq::<int>::empty();
    lemma_closure_distinct(table, seed, fresh, none);
}

/// The name `name` is one of `seed`, or one that a definition at a
/// position of `found` mentions.
pub open spec fn called_for(
    table: Seq<TypeDefModel>,
    seed: Seq<Seq<char>>,
    found: Seq<int>,
    name: Seq<char>,
) -> bool {
    (exists|w: int| 0 <= w < seed.len() && #[trigger] seed[w] == name) || (exists|m: int, w: int|
        member(found, m) && 0 <= w < mentions(table, m).len() && #[trigger] mentions(table, m)[w]
            == name)
}

/// The definition at `k` is there for a reason: it declares a name of
/// `seed`, or one that a definition at a position of `found` mentions.
pub open spec fn needed(
    table: Seq<TypeDefModel>,
    seed: Seq<Seq<char>>,
    found: Seq<int>,
    k: int,
) -> bool {
    exists|name: Seq<char>|
        #[trigger] called_for(table, seed, found, name) && lookup(table, name, 0) == Some(k)
}

/// What is called for by what was found is called for by what is found
/// with one more.
pub proof fn lemma_called_for_more(
    table: Seq<TypeDefModel>,
    seed: Seq<Seq<char>>,
    found: Seq<int>,
    i: int,
    name: Seq<char>,
)
    requires
        called_for(table, seed, found, name),
    ensures
        called_for(table, seed, found.push(i), name),
{
    if !(exists|w: int| 0 <= w < seed.len() && #[trigger] seed[w] == name) {
        let (m, w) = choose|m: int, w: int|
            member(found, m) && 0 <= w < mentions(table, m).len() && #[trigger] mentions(
                table,
                m,
            )[w] == name;
        lemma_member_push(found, i, m);
        assert(member(found.push(i), m) && mentions(table, m)[w] == name);
    }
}

/// Where every name still to look at is called for, and everything found
/// so far is needed, everything found in the end is needed: it declares a
/// name of the seed, or one that something found mentions.
pub proof fn lemma_closure_needed(
    table: Seq<TypeDefModel>,
    seed: Seq<Seq<char>>,
    work: Seq<Seq<char>>,
    visited: Seq<bool>,
    found: Seq<int>,
)
    requires
        visited.len() == table.len(),
        forall|w: int| 0 <= w < work.len() ==> called_for(table, seed, found, #[trigger] work[w]),
        forall|k: int| member(found, k) ==> needed(table, seed, found, k),
    ensures
        forall|k: int|
            member(closure_from(table, work, visited, found), k) ==> needed(
                table,
                seed,
                closure_from(table, work, visited, found),
                k,
            ),
    decreases unvisited(visited), work.len(),
{
    let res = closure_from(table, work, visited, found);
    if work.len() == 0 {
        assert(res == found);
    } else {
        let name = work.last();
        let rest = work.drop_last();
        lemma_lookup(table, name, 0);
        assert forall|w: int| 0 <= w < rest.len() implies called_for(
            table,
            seed,
            found,
            #[trigger] rest[w],
        ) by {
            assert(rest[w] == work[w]);
        }
        match lookup(table, name, 0) {
            None => {
                lemma_closure_needed(table, seed, rest, visited, found);
                assert(res == closure_from(table, rest, visited, found));
            },
            Some(i) => {
                if visited[i] {
                    lemma_closure_needed(table, seed, rest, visited, found);
                    assert(res == closure_from(table, rest, visited, found));
                } else {
                    lemma_mark(visited, i);
                    let more = found.push(i);
                    let next = rest + mentions(table, i);
                    assert(res == closure_from(table, next, visited.update(i, true), more));
                    lemma_member_push(found, i, i);
                    assert forall|w: int| 0 <= w < next.len() implies called_for(
                        table,
                        seed,
                        more,
                        #[trigger] next[w],
                    ) by {
                        if w < rest.len() {
                            assert(next[w] == rest[w]);
                            lemma_called_for_more(table, seed, found, i, rest[w]);
                        } else {
                            let at = w - rest.len();
                            assert(next[w] == mentions(table, i)[at]);
                            assert(member(more, i) && mentions(table, i)[at] == next[w]);
                        }
                    }
                    assert(called_for(table, seed, found, work[work.len() - 1]));
                    lemma_called_for_more(table, seed, found, i, name);
                    assert forall|k: int| member(more, k) implies needed(table, seed, more, k) by {
                        lemma_member_push(found, i, k);
                        if k == i {
                            assert(called_for(table, seed, more, name));
                        } else {
                            let reason = choose|reason: Seq<char>|
                                #[trigger] called_for(table, seed, found, reason) && lookup(
                                    table,
                                    reason,
                                    0,
                                ) == Some(k);
                            lemma_called_for_more(table, seed, found, i, reason);
                        }
                    }
                    lemma_closure_needed(table, seed, next, visited.update(i, true), more);
                }
            },
        }
    }
}

/// Nothing is found without need: every definition that is found declares
/// a name of the seed, or one that a found definition mentions.
pub proof fn lemma_closure_is_least(table: Seq<TypeDefModel>, seed: Seq<Seq<char>>, k: int)
    requires
        member(closure_order(table, seed), k),
    ensures
        needed(table, seed, closure_order(table, seed), k),
{
    let fresh = Seq::new(table.len(), |i: int| false);
    let none = Seq::<int>::empty();
    assert forall|w: int| 0 <= w < seed.len() implies called_for(
        table,
        seed,
        none,
        #[trigger] seed[w],
    ) by {}
    lemma_closure_needed(table, seed, seed, fresh, none);
}

} // verus!
