//! The storage layout: every record of type `t` with journal identifier `id`
//! lives at `./data/<t>/<id>.json`. Distinct `(type, id)` pairs always map to
//! distinct file paths. A file is identified with its path text throughout;
//! whether the operating system maps two distinct texts to one file (as it
//! can when a type holds `/` or path-navigation segments) lies outside the
//! model, in the layout itself as much as here.

use vstd::prelude::*;
use crate::decimal::{
    decimal_of,
    i64_to_decimal,
    is_digit_char,
    lemma_decimal_of_form,
    lemma_decimal_of_injective,
};

verus! {

/// The directory that holds all records of one type.
pub open spec fn dir_for(t: Seq<char>) -> Seq<char> {
    "./data/"@ + t
}

/// The file path of the record of type `t` with journal identifier `id`.
pub open spec fn file_for(t: Seq<char>, id: int) -> Seq<char> {
    dir_for(t) + seq!['/'] + decimal_of(id) + ".json"@
}

/// Builds `./data/<t>`.
pub fn dir_string(t: &str) -> (r: String)
    ensures
        r@ == dir_for(t@),
{
    let mut r = String::from_str("./data/");
    r.append(t);
    proof {
        assert(r@ =~= dir_for(t@));
    }
    r
}

/// Builds `./data/<t>/<id>.json`.
pub fn file_string(t: &str, id: i64) -> (r: String)
    ensures
        r@ == file_for(t@, id as int),
{
    let mut r = dir_string(t);
    r.append("/");
    let digits = i64_to_decimal(id);
    r.append(digits.as_str());
    r.append(".json");
    proof {
        reveal_strlit("/");
        assert(r@ =~= file_for(t@, id as int));
    }
    r
}

/// Splitting a text at a separator is unambiguous when the separator does not
/// occur in either tail.
proof fn lemma_split_at_last_slash(a: Seq<char>, b: Seq<char>, c: Seq<char>, d: Seq<char>)
    requires
        a + seq!['/'] + b == c + seq!['/'] + d,
        forall|i: int| 0 <= i < b.len() ==> b[i] != '/',
        forall|i: int| 0 <= i < d.len() ==> d[i] != '/',
    ensures
        a == c,
        b == d,
{
    let lhs = a + seq!['/'] + b;
    let rhs = c + seq!['/'] + d;
    assert(lhs.len() == a.len() + 1 + b.len());
    assert(rhs.len() == c.len() + 1 + d.len());
    if a.len() > c.len() {
        let p = a.len() as int;
        assert(lhs[p] == '/');
        assert(rhs[p] == d[p - c.len() - 1]);
        assert(false);
    }
    if c.len() > a.len() {
        let p = c.len() as int;
        assert(rhs[p] == '/');
        assert(lhs[p] == b[p - a.len() - 1]);
        assert(false);
    }
    assert(a =~= c) by {
        assert forall|i: int| 0 <= i < a.len() implies a[i] == c[i] by {
            assert(lhs[i] == a[i]);
            assert(rhs[i] == c[i]);
        }
    }
    assert(b =~= d) by {
        assert forall|i: int| 0 <= i < b.len() implies b[i] == d[i] by {
            assert(lhs[a.len() + 1 + i] == b[i]);
            assert(rhs[c.len() + 1 + i] == d[i]);
        }
    }
}

/// Distinct `(type, id)` pairs map to distinct record paths: the path
/// determines both the type and the identifier.
pub proof fn lemma_file_for_injective(t1: Seq<char>, i1: int, t2: Seq<char>, i2: int)
    requires
        file_for(t1, i1) == file_for(t2, i2),
    ensures
        t1 == t2,
        i1 == i2,
{
    reveal_strlit("./data/");
    reveal_strlit(".json");
    lemma_decimal_of_form(i1);
    lemma_decimal_of_form(i2);
    let b1 = decimal_of(i1) + ".json"@;
    let b2 = decimal_of(i2) + ".json"@;
    assert(file_for(t1, i1) =~= dir_for(t1) + seq!['/'] + b1);
    assert(file_for(t2, i2) =~= dir_for(t2) + seq!['/'] + b2);
    assert forall|i: int| 0 <= i < b1.len() implies b1[i] != '/' by {
        if i < decimal_of(i1).len() {
            assert(b1[i] == decimal_of(i1)[i]);
            assert(is_digit_char(b1[i]) || b1[i] == '-');
        } else {
            assert(b1[i] == ".json"@[i - decimal_of(i1).len()]);
        }
    }
    assert forall|i: int| 0 <= i < b2.len() implies b2[i] != '/' by {
        if i < decimal_of(i2).len() {
            assert(b2[i] == decimal_of(i2)[i]);
            assert(is_digit_char(b2[i]) || b2[i] == '-');
        } else {
            assert(b2[i] == ".json"@[i - decimal_of(i2).len()]);
        }
    }
    lemma_split_at_last_slash(dir_for(t1), b1, dir_for(t2), b2);
    assert(t1 =~= t2) by {
        assert(dir_for(t1).len() == 7 + t1.len());
        assert(dir_for(t2).len() == 7 + t2.len());
        assert forall|i: int| 0 <= i < t1.len() implies t1[i] == t2[i] by {
            assert(dir_for(t1)[7 + i] == t1[i]);
            assert(dir_for(t2)[7 + i] == t2[i]);
        }
    }
    assert(decimal_of(i1) =~= decimal_of(i2)) by {
        assert(decimal_of(i1).len() + 5 == decimal_of(i2).len() + 5);
        assert forall|i: int| 0 <= i < decimal_of(i1).len() implies decimal_of(i1)[i]
            == decimal_of(i2)[i] by {
            assert(b1[i] == decimal_of(i1)[i]);
            assert(b2[i] == decimal_of(i2)[i]);
        }
    }
    lemma_decimal_of_injective(i1, i2);
}

} // verus!
