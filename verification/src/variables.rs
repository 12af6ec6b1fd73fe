//! The variables that occur in expressions.

use vstd::prelude::*;
use crate::text;

verus! {

/// The pattern of a name: a letter or underscore, then letters, digits and underscores.
pub const IDENTIFIER: &'static str = "[a-zA-Z_][a-zA-Z0-9_]*";

/// The views of a list of texts.
pub open spec fn texts(list: Seq<String>) -> Seq<Seq<char>> {
    list.map_values(|s: String| s@)
}

/// Whether a name can start with `c`.
pub open spec fn name_start(c: char) -> bool {
    'a' <= c <= 'z' || 'A' <= c <= 'Z' || c == '_'
}

/// Whether a name can go on with `c`.
pub open spec fn name_part(c: char) -> bool {
    name_start(c) || '0' <= c <= '9'
}

/// How many characters at the start of `s` can belong to one name.
pub open spec fn run_length(s: Seq<char>) -> nat
    decreases s.len(),
{
    if s.len() > 0 && name_part(s[0]) {
        1 + run_length(s.skip(1))
    } else {
        0
    }
}

proof fn lemma_run_length(s: Seq<char>)
    ensures
        run_length(s) <= s.len(),
    decreases s.len(),
{
    if s.len() > 0 && name_part(s[0]) {
        lemma_run_length(s.skip(1));
    }
}

/// The names in `s` from left to right, each as long as it can be.
pub open spec fn identifiers(s: Seq<char>) -> Seq<Seq<char>>
    decreases s.len(),
    via identifiers_shrink
{
    if s.len() == 0 {
        Seq::empty()
    } else if name_start(s[0]) {
        let n = run_length(s) as int;
        seq![s.take(n)] + identifiers(s.skip(n))
    } else {
        identifiers(s.skip(1))
    }
}

#[via_fn]
proof fn identifiers_shrink(s: Seq<char>) {
    lemma_run_length(s);
}

/// `regex::Regex::new` and `Regex::find_iter` with the pattern [`IDENTIFIER`]:
/// the pattern compiles, and the matches are, from left to right and without
/// overlap, the names of the text, each as long as it can be.
#[verifier::external_body]
fn find_names(pattern: &str, text: &str) -> (r: Vec<String>)
    requires
        pattern@ == IDENTIFIER@,
    ensures
        texts(r@) == identifiers(text@),
{
    regex::Regex::new(pattern)
        .expect("regex must compile")
        .find_iter(text)
        .map(|m| m.as_str().to_string())
        .collect()
}

/// The names that stand for something fixed and are no variables.
pub open spec fn reserved(name: Seq<char>) -> bool {
    name == "pi"@ || name == "e"@ || name == "true"@ || name == "false"@
}

/// Whether `list` stands in strictly ascending order.
pub open spec fn ascending(list: Seq<Seq<char>>) -> bool {
    forall|i: int, j: int|
        0 <= i < j < list.len() ==> text::text_before(#[trigger] list[i], #[trigger] list[j])
}

/// Whether `list` holds those of `names` that are not reserved, each once, in
/// ascending order.
pub open spec fn variable_list(names: Seq<Seq<char>>, list: Seq<Seq<char>>) -> bool {
    &&& ascending(list)
    &&& forall|v: Seq<char>| #[trigger]
        list.contains(v) <==> names.contains(v) && !reserved(v)
}

/// Those of `names` that are not reserved, each once, in ascending order.
pub open spec fn variables_among(names: Seq<Seq<char>>) -> Seq<Seq<char>> {
    choose|list: Seq<Seq<char>>| variable_list(names, list)
}

/// The names in two expressions, in lower case.
pub open spec fn lowered_names(a: Seq<char>, b: Seq<char>) -> Seq<Seq<char>> {
    (identifiers(a) + identifiers(b)).map_values(|name: Seq<char>| text::lowered(name))
}

/// The variables of two expressions, each once, in ascending order.
pub open spec fn variables(a: Seq<char>, b: Seq<char>) -> Seq<Seq<char>> {
    variables_among(lowered_names(a, b))
}

/// Two ascending lists with the same members are the same list.
proof fn lemma_ascending_unique(a: Seq<Seq<char>>, b: Seq<Seq<char>>)
    requires
        ascending(a),
        ascending(b),
        forall|v: Seq<char>| a.contains(v) <==> b.contains(v),
    ensures
        a == b,
    decreases a.len(),
{
    if a.len() == 0 {
        if b.len() > 0 {
            assert(b.contains(b[0]));
        }
        assert(a =~= b);
    } else {
        assert(a.contains(a[0]));
        assert(b.contains(a[0]));
        assert(a.contains(a.last()));
        assert(b.contains(b.last()));
        let i = choose|i: int| 0 <= i < a.len() && a[i] == b.last();
        let j = choose|j: int| 0 <= j < b.len() && b[j] == a.last();
        if i < a.len() - 1 && j < b.len() - 1 {
            text::lemma_text_before_transitive(a[i], a.last(), b.last());
            text::lemma_text_before_irreflexive(b.last());
        }
        assert(a.last() == b.last());
        let x = a.last();
        assert forall|v: Seq<char>| a.drop_last().contains(v) <==> b.drop_last().contains(v) by {
            lemma_all_but_last(a, v);
            lemma_all_but_last(b, v);
        }
        lemma_ascending_unique(a.drop_last(), b.drop_last());
        assert(a =~= a.drop_last().push(x));
        assert(b =~= b.drop_last().push(x));
    }
}

/// An ascending list without its last member holds all its members but that one.
proof fn lemma_all_but_last(a: Seq<Seq<char>>, v: Seq<char>)
    requires
        ascending(a),
        a.len() > 0,
    ensures
        a.drop_last().contains(v) <==> a.contains(v) && v != a.last(),
{
    if a.contains(v) && v != a.last() {
        let i = choose|i: int| 0 <= i < a.len() && a[i] == v;
        assert(a.drop_last()[i] == v);
    }
    if a.drop_last().contains(v) {
        let i = choose|i: int| 0 <= i < a.drop_last().len() && a.drop_last()[i] == v;
        assert(a[i] == v);
        text::lemma_text_before_irreflexive(v);
    }
}

/// A list that holds the variables among `names` is [`variables_among`] them.
pub proof fn lemma_variables_unique(names: Seq<Seq<char>>, list: Seq<Seq<char>>)
    requires
        variable_list(names, list),
    ensures
        variables_among(names) == list,
{
    let other = variables_among(names);
    assert(variable_list(names, other));
    assert forall|v: Seq<char>| list.contains(v) <==> other.contains(v) by {
        assert(list.contains(v) <==> names.contains(v) && !reserved(v));
        assert(other.contains(v) <==> names.contains(v) && !reserved(v));
    }
    lemma_ascending_unique(list, other);
}

/// The members of a list after `v` is put in at `at`.
proof fn lemma_insert_members(list: Seq<Seq<char>>, at: int, v: Seq<char>)
    requires
        0 <= at <= list.len(),
    ensures
        forall|w: Seq<char>|
            #[trigger] list.insert(at, v).contains(w) <==> list.contains(w) || w == v,
{
    let new = list.insert(at, v);
    assert(new[at] == v);
    assert forall|w: Seq<char>| #[trigger] new.contains(w) <==> list.contains(w) || w == v by {
        if list.contains(w) {
            let i = choose|i: int| 0 <= i < list.len() && list[i] == w;
            assert(new[if i < at { i } else { i + 1 }] == w);
        }
        if new.contains(w) && w != v {
            let i = choose|i: int| 0 <= i < new.len() && new[i] == w;
            assert(list[if i < at { i } else { i - 1 }] == w);
        }
    }
}

/// Putting `v` between what comes before it and what comes after it keeps a list ascending.
proof fn lemma_insert_ascending(list: Seq<Seq<char>>, at: int, v: Seq<char>)
    requires
        ascending(list),
        0 <= at <= list.len(),
        forall|i: int| 0 <= i < at ==> text::text_before(#[trigger] list[i], v),
        at < list.len() ==> text::text_before(v, list[at]),
    ensures
        ascending(list.insert(at, v)),
{
    let new = list.insert(at, v);
    assert forall|i: int, j: int| 0 <= i < j < new.len() implies text::text_before(
        #[trigger] new[i],
        #[trigger] new[j],
    ) by {
        if i == at {
            if j > at + 1 {
                text::lemma_text_before_transitive(v, list[at], list[j - 1]);
            }
        } else if j == at {
            assert(text::text_before(list[i], v));
        }
    }
}

/// Where `name` belongs in an ascending list: behind all that comes before it.
fn place_of(list: &Vec<String>, name: &str) -> (r: usize)
    requires
        ascending(texts(list@)),
    ensures
        0 <= r <= list@.len(),
        forall|i: int| 0 <= i < r ==> text::text_before(#[trigger] texts(list@)[i], name@),
        r < list@.len() ==> !text::text_before(texts(list@)[r as int], name@),
{
    let mut i: usize = 0;
    while i < list.len() && text::is_text_before(list[i].as_str(), name)
        invariant
            0 <= i <= list@.len(),
            forall|k: int| 0 <= k < i ==> text::text_before(#[trigger] texts(list@)[k], name@),
        decreases list@.len() - i,
    {
        i += 1;
    }
    i
}

fn is_reserved(name: &str) -> (r: bool)
    ensures
        r == reserved(name@),
{
    text::same_text(name, "pi") || text::same_text(name, "e") || text::same_text(name, "true")
        || text::same_text(name, "false")
}

/// The members of a list with one member more.
proof fn lemma_push_members(names: Seq<Seq<char>>, name: Seq<char>)
    ensures
        forall|w: Seq<char>| #[trigger]
            names.push(name).contains(w) <==> names.contains(w) || w == name,
{
    let more = names.push(name);
    assert(more[names.len() as int] == name);
    assert forall|w: Seq<char>| #[trigger] more.contains(w) <==> names.contains(w) || w == name by {
        if names.contains(w) {
            let k = choose|k: int| 0 <= k < names.len() && names[k] == w;
            assert(more[k] == w);
        }
        if more.contains(w) && w != name {
            let k = choose|k: int| 0 <= k < more.len() && more[k] == w;
            assert(names[k] == w);
        }
    }
}

/// Those of `names` that are not reserved, each once, in ascending order.
pub fn collect_variables(names: &Vec<String>) -> (r: Vec<String>)
    ensures
        variable_list(texts(names@), texts(r@)),
        texts(r@) == variables_among(texts(names@)),
{
    let ghost all = texts(names@);
    let mut list: Vec<String> = Vec::new();
    let mut i: usize = 0;
    assert(all.take(0) =~= Seq::empty());
    while i < names.len()
        invariant
            0 <= i <= names@.len(),
            all == texts(names@),
            variable_list(all.take(i as int), texts(list@)),
        decreases names@.len() - i,
    {
        let ghost before = texts(list@);
        let name = &names[i];
        proof {
            assert(all.take(i as int + 1) =~= all.take(i as int).push(name@));
            lemma_push_members(all.take(i as int), name@);
        }
        i += 1;
        if !is_reserved(name.as_str()) {
            let at = place_of(&list, name.as_str());
            if at < list.len() && text::same_text(list[at].as_str(), name.as_str()) {
                assert(before.contains(before[at as int]));
            } else {
                proof {
                    if at < before.len() {
                        text::lemma_text_before_total(name@, before[at as int]);
                    }
                    lemma_insert_members(before, at as int, name@);
                    lemma_insert_ascending(before, at as int, name@);
                }
                list.insert(at, name.clone());
                assert(texts(list@) =~= before.insert(at as int, name@));
            }
        }
    }
    proof {
        assert(all.take(i as int) =~= all);
        lemma_variables_unique(all, texts(list@));
    }
    list
}

/// The variables of two expressions, each once, in ascending order.
pub fn extract_variables(a: &str, b: &str) -> (r: Vec<String>)
    ensures
        variable_list(lowered_names(a@, b@), texts(r@)),
        texts(r@) == variables(a@, b@),
{
    let mut found = find_names(IDENTIFIER, a);
    let mut in_b = find_names(IDENTIFIER, b);
    let ghost first = texts(found@);
    let ghost second = texts(in_b@);
    found.append(&mut in_b);
    assert(texts(found@) =~= first + second);
    let mut names: Vec<String> = Vec::new();
    let mut i: usize = 0;
    while i < found.len()
        invariant
            0 <= i <= found@.len(),
            texts(found@) == identifiers(a@) + identifiers(b@),
            texts(names@) == lowered_names(a@, b@).take(i as int),
        decreases found@.len() - i,
    {
        assert(texts(found@)[i as int] == found@[i as int]@);
        let ghost before = texts(names@);
        let name = found[i].as_str().to_lowercase();
        proof {
            assert(name@ == lowered_names(a@, b@)[i as int]);
            assert(lowered_names(a@, b@).take(i as int + 1) =~= before.push(name@));
        }
        names.push(name);
        assert(texts(names@) =~= before.push(name@));
        i += 1;
    }
    proof {
        assert(texts(found@).len() == found@.len());
        assert(lowered_names(a@, b@).take(i as int) =~= lowered_names(a@, b@));
    }
    collect_variables(&names)
}

/// There is a list that holds the variables among `names`.
pub proof fn lemma_variable_list_exists(names: Seq<Seq<char>>) -> (list: Seq<Seq<char>>)
    ensures
        variable_list(names, list),
    decreases names.len(),
{
    if names.len() == 0 {
        Seq::empty()
    } else {
        let fewer = names.drop_last();
        let v = names.last();
        let before = lemma_variable_list_exists(fewer);
        assert(names =~= fewer.push(v));
        lemma_push_members(fewer, v);
        if reserved(v) || before.contains(v) {
            before
        } else {
            let at = lemma_place_exists(before, v, before.len() as int);
            lemma_insert_members(before, at, v);
            lemma_insert_ascending(before, at, v);
            before.insert(at, v)
        }
    }
}

/// Where a new member belongs among the first `n` of an ascending list.
proof fn lemma_place_exists(list: Seq<Seq<char>>, v: Seq<char>, n: int) -> (at: int)
    requires
        ascending(list),
        !list.contains(v),
        0 <= n <= list.len(),
        n < list.len() ==> text::text_before(v, list[n]),
    ensures
        0 <= at <= n,
        forall|i: int| 0 <= i < at ==> text::text_before(#[trigger] list[i], v),
        at < list.len() ==> text::text_before(v, list[at]),
    decreases n,
{
    if n == 0 {
        0
    } else {
        assert(list.contains(list[n - 1]));
        text::lemma_text_before_total(list[n - 1], v);
        if text::text_before(list[n - 1], v) {
            assert forall|i: int| 0 <= i < n implies text::text_before(#[trigger] list[i], v) by {
                if i < n - 1 {
                    text::lemma_text_before_transitive(list[i], list[n - 1], v);
                }
            }
            n
        } else {
            lemma_place_exists(list, v, n - 1)
        }
    }
}

/// The variables of two expressions do not depend on their order.
pub proof fn lemma_variables_symmetric(a: Seq<char>, b: Seq<char>)
    ensures
        variables(a, b) == variables(b, a),
{
    let x = lowered_names(a, b);
    let y = lowered_names(b, a);
    let list = lemma_variable_list_exists(x);
    assert forall|v: Seq<char>| x.contains(v) <==> y.contains(v) by {
        lemma_lowered_names_swap(a, b, v);
        lemma_lowered_names_swap(b, a, v);
    }
    assert(variable_list(y, list));
    lemma_variables_unique(x, list);
    lemma_variables_unique(y, list);
}

proof fn lemma_lowered_names_swap(a: Seq<char>, b: Seq<char>, v: Seq<char>)
    ensures
        lowered_names(a, b).contains(v) ==> lowered_names(b, a).contains(v),
{
    let x = lowered_names(a, b);
    let y = lowered_names(b, a);
    let n = identifiers(a).len();
    let m = identifiers(b).len();
    if x.contains(v) {
        let k = choose|k: int| 0 <= k < x.len() && x[k] == v;
        if k < n {
            assert(y[k + m] == x[k]);
        } else {
            assert(y[k - n] == x[k]);
        }
    }
}

} // verus!
