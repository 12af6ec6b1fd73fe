//! Answers as written: their plain form, and their form as one expression.

use vstd::prelude::*;
use vstd::string::*;
use crate::forms;
use crate::text;

verus! {

/// `s` with every caret written as two stars.
pub open spec fn carets_as_stars(s: Seq<char>) -> Seq<char>
    decreases s.len(),
{
    if s.len() == 0 {
        Seq::empty()
    } else if s.last() == '^' {
        carets_as_stars(s.drop_last()) + seq!['*', '*']
    } else {
        carets_as_stars(s.drop_last()).push(s.last())
    }
}

/// An answer trimmed, without spaces, and with `**` for `^`.
pub open spec fn compact(s: Seq<char>) -> Seq<char> {
    carets_as_stars(text::trimmed(s).filter(|c: char| c != ' '))
}

/// The plain form of an answer: compact and in lower case.
pub open spec fn plain(s: Seq<char>) -> Seq<char> {
    text::lowered(compact(s))
}

/// Whether the only `=` of `s` stands at `i`.
pub open spec fn sole_equals(s: Seq<char>, i: int) -> bool {
    &&& 0 <= i < s.len()
    &&& s[i] == '='
    &&& forall|k: int| 0 <= k < s.len() && k != i ==> s[k] != '='
}

/// With exactly one `=` the left side minus the right side, else the text itself.
pub open spec fn sides_joined(s: Seq<char>) -> Seq<char> {
    if exists|i: int| sole_equals(s, i) {
        let i = choose|i: int| sole_equals(s, i);
        "("@ + s.take(i) + ")-("@ + s.skip(i + 1) + ")"@
    } else {
        s
    }
}

/// The form of an answer as one expression.
pub open spec fn as_expression(s: Seq<char>) -> Seq<char> {
    sides_joined(plain(s))
}

/// An answer trimmed, without spaces, and with `**` for `^`.
pub fn compact_form(input: &str) -> (r: String)
    ensures
        r@ == compact(input@),
{
    let t = text::trim(input);
    let v = text::chars_of(t.as_str());
    let ghost keep = |c: char| c != ' ';
    let mut out = String::new();
    let mut i: usize = 0;
    proof {
        assert(v@.take(0) =~= Seq::empty());
        assert(Seq::<char>::empty().filter(keep) =~= Seq::empty()) by {
            reveal(Seq::filter);
        }
    }
    while i < v.len()
        invariant
            0 <= i <= v@.len(),
            keep == (|c: char| c != ' '),
            out@ == carets_as_stars(v@.take(i as int).filter(keep)),
        decreases v@.len() - i,
    {
        let c = v[i];
        proof {
            let kept = v@.take(i as int).filter(keep);
            assert(v@.take(i as int + 1).drop_last() =~= v@.take(i as int));
            assert(v@.take(i as int + 1).last() == c);
            assert(v@.take(i as int + 1).filter(keep) == if c != ' ' {
                kept.push(c)
            } else {
                kept
            }) by {
                reveal(Seq::filter);
            }
            assert(kept.push(c).drop_last() =~= kept);
        }
        if c == '^' {
            out.push('*');
            out.push('*');
            proof {
                let kept = v@.take(i as int).filter(keep);
                assert(carets_as_stars(kept.push(c)) == carets_as_stars(kept) + seq!['*', '*']);
                assert(out@ =~= carets_as_stars(kept) + seq!['*', '*']);
            }
        } else if c != ' ' {
            out.push(c);
        }
        i += 1;
    }
    assert(v@.take(v@.len() as int) =~= v@);
    out
}

/// The plain form of an answer.
pub fn normalize_plain(input: &str) -> (r: String)
    ensures
        r@ == plain(input@),
        text::without_capitals(r@),
        r@.len() == 0 <==> text::trimmed(input@).len() == 0,
{
    proof {
        forms::lemma_compact_shape(input@);
    }
    compact_form(input).as_str().to_lowercase()
}

/// With exactly one `=` the left side minus the right side, else the text itself.
pub fn join_sides(cleaned: &str) -> (r: String)
    ensures
        r@ == sides_joined(cleaned@),
{
    let v = text::chars_of(cleaned);
    let mut found: usize = 0;
    let mut at: usize = 0;
    let mut i: usize = 0;
    while i < v.len()
        invariant
            0 <= i <= v@.len(),
            found <= i,
            found == 0 ==> forall|k: int| 0 <= k < i ==> v@[k] != '=',
            found == 1 ==> sole_equals(v@.take(i as int), at as int),
            found >= 2 ==> exists|j: int, k: int|
                0 <= j < k < i && v@[j] == '=' && v@[k] == '=',
        decreases v@.len() - i,
    {
        if v[i] == '=' {
            if found == 0 {
                at = i;
            } else if found == 1 {
                assert(v@.take(i as int)[at as int] == '=');
                assert(v@[at as int] == '=' && v@[i as int] == '=');
            }
            found += 1;
        } else if found == 1 {
            let ghost seen = v@.take(i as int);
            let ghost next = v@.take(i as int + 1);
            assert(next =~= seen.push(v@[i as int]));
            assert forall|k: int| 0 <= k < next.len() && k != at implies next[k] != '=' by {
                if k < i {
                    assert(next[k] == seen[k]);
                }
            }
        }
        i += 1;
    }
    assert(v@.take(v@.len() as int) =~= v@);
    if found == 1 {
        let left = text::text_of(&v, 0, at);
        let right = text::text_of(&v, at + 1, v.len());
        let mut r = String::new();
        r.append("(");
        r.append(left.as_str());
        r.append(")-(");
        r.append(right.as_str());
        r.append(")");
        proof {
            let c = choose|i: int| sole_equals(v@, i);
            assert(sole_equals(v@, at as int));
            assert(c == at);
            assert(left@ =~= v@.take(at as int));
            assert(right@ =~= v@.skip(at as int + 1));
            assert(r@ =~= "("@ + v@.take(at as int) + ")-("@ + v@.skip(at as int + 1) + ")"@);
        }
        r
    } else {
        assert(!exists|i: int| sole_equals(v@, i));
        cleaned.to_string()
    }
}

/// The form of an answer as one expression.
pub fn normalize_equation(input: &str) -> (r: String)
    ensures
        r@ == as_expression(input@),
{
    let cleaned = normalize_plain(input);
    join_sides(cleaned.as_str())
}

} // verus!
