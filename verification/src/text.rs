//! Verified text utilities: string comparison, decimal numerals, and the
//! path conventions the benchmark harness names its binaries by.

use vstd::prelude::*;
use vstd::string::{StrSliceExecFns, StringExecFns};

verus! {

/// Whether two string slices hold the same characters.
pub fn str_eq(a: &str, b: &str) -> (r: bool)
    ensures
        r == (a@ == b@),
{
    let alen = a.unicode_len();
    let blen = b.unicode_len();
    if alen != blen {
        return false;
    }
    let mut i: usize = 0;
    while i < alen
        invariant
            alen == a@.len(),
            blen == b@.len(),
            alen == blen,
            i <= alen,
            forall|k: int| 0 <= k < i ==> a@[k] == b@[k],
        decreases alen - i,
    {
        if a.get_char(i) != b.get_char(i) {
            return false;
        }
        i = i + 1;
    }
    proof {
        assert(a@ =~= b@);
    }
    true
}

/// The decimal digit character of a value below ten.
pub open spec fn digit_char(d: int) -> char {
    if d == 0 {
        '0'
    } else if d == 1 {
        '1'
    } else if d == 2 {
        '2'
    } else if d == 3 {
        '3'
    } else if d == 4 {
        '4'
    } else if d == 5 {
        '5'
    } else if d == 6 {
        '6'
    } else if d == 7 {
        '7'
    } else if d == 8 {
        '8'
    } else {
        '9'
    }
}

/// The decimal numeral of a natural number, most significant digit first,
/// without leading zeros (the numeral of zero is the single digit zero).
pub open spec fn dec_str(n: nat) -> Seq<char>
    decreases n,
{
    if n < 10 {
        seq![digit_char(n as int)]
    } else {
        dec_str(n / 10).push(digit_char((n % 10) as int))
    }
}

/// The one-character string of a decimal digit.
fn digit_str(d: usize) -> (r: &'static str)
    requires
        d < 10,
    ensures
        r@ == seq![digit_char(d as int)],
{
    if d == 0 {
        proof {
            reveal_strlit("0");
            assert("0"@ =~= seq![digit_char(0)]);
        }
        "0"
    } else if d == 1 {
        proof {
            reveal_strlit("1");
            assert("1"@ =~= seq![digit_char(1)]);
        }
        "1"
    } else if d == 2 {
        proof {
            reveal_strlit("2");
            assert("2"@ =~= seq![digit_char(2)]);
        }
        "2"
    } else if d == 3 {
        proof {
            reveal_strlit("3");
            assert("3"@ =~= seq![digit_char(3)]);
        }
        "3"
    } else if d == 4 {
        proof {
            reveal_strlit("4");
            assert("4"@ =~= seq![digit_char(4)]);
        }
        "4"
    } else if d == 5 {
        proof {
            reveal_strlit("5");
            assert("5"@ =~= seq![digit_char(5)]);
        }
        "5"
    } else if d == 6 {
        proof {
            reveal_strlit("6");
            assert("6"@ =~= seq![digit_char(6)]);
        }
        "6"
    } else if d == 7 {
        proof {
            reveal_strlit("7");
            assert("7"@ =~= seq![digit_char(7)]);
        }
        "7"
    } else if d == 8 {
        proof {
            reveal_strlit("8");
            assert("8"@ =~= seq![digit_char(8)]);
        }
        "8"
    } else {
        proof {
            reveal_strlit("9");
            assert("9"@ =~= seq![digit_char(9)]);
        }
        "9"
    }
}

/// The decimal numeral of `n` as an owned string.
pub fn usize_to_string(n: usize) -> (r: String)
    ensures
        r@ == dec_str(n as nat),
    decreases n,
{
    if n < 10 {
        digit_str(n).to_owned()
    } else {
        let prefix = usize_to_string(n / 10);
        let r = prefix.concat(digit_str(n % 10));
        proof {
            assert(r@ =~= dec_str(n as nat));
        }
        r
    }
}

/// The final component of a path: the characters after its last separator,
/// the whole path if it has none.
pub open spec fn file_name_of(p: Seq<char>) -> Seq<char>
    decreases p.len(),
{
    if p.len() == 0 {
        p
    } else if p.last() == '/' {
        Seq::empty()
    } else {
        file_name_of(p.drop_last()).push(p.last())
    }
}

/// Whether a character sequence contains a dot.
pub open spec fn has_dot(s: Seq<char>) -> bool {
    exists|i: int| 0 <= i < s.len() && s[i] == '.'
}

/// The stem of a file name: the characters before its last dot, the whole
/// name if it has none.
pub open spec fn stem_of(s: Seq<char>) -> Seq<char>
    decreases s.len(),
{
    if s.len() == 0 {
        s
    } else if s.last() == '.' {
        s.drop_last()
    } else if has_dot(s.drop_last()) {
        stem_of(s.drop_last())
    } else {
        s
    }
}

/// The file stem of a path: the stem of its final component.
pub open spec fn file_stem_of(p: Seq<char>) -> Seq<char> {
    stem_of(file_name_of(p))
}

/// A name with no dot is its own stem.
proof fn lemma_stem_no_dot(s: Seq<char>)
    requires
        !has_dot(s),
    ensures
        stem_of(s) == s,
    decreases s.len(),
{
    if s.len() > 0 {
        assert(s.last() != '.');
        assert(!has_dot(s.drop_last())) by {
            if has_dot(s.drop_last()) {
                let i = choose|i: int|
                    0 <= i < s.drop_last().len() && s.drop_last()[i] == '.';
                assert(s[i] == '.');
            }
        }
    }
}

/// A name's stem ends right before its last dot.
proof fn lemma_stem_last_dot(s: Seq<char>, d: int)
    requires
        0 <= d < s.len(),
        s[d] == '.',
        forall|k: int| d < k < s.len() ==> s[k] != '.',
    ensures
        stem_of(s) == s.take(d),
    decreases s.len(),
{
    if d == s.len() - 1 {
        assert(s.drop_last() =~= s.take(d));
    } else {
        assert(s.last() != '.');
        assert(s.drop_last()[d] == '.');
        assert(has_dot(s.drop_last()));
        lemma_stem_last_dot(s.drop_last(), d);
        assert(s.drop_last().take(d) =~= s.take(d));
    }
}

/// The file stem of a path, as a borrowed slice of it.
pub fn file_stem(path: &str) -> (r: &str)
    ensures
        r@ == file_stem_of(path@),
{
    let n = path.unicode_len();
    let mut start: usize = 0;
    let mut i: usize = 0;
    while i < n
        invariant
            n == path@.len(),
            start <= i <= n,
            file_name_of(path@.take(i as int)) == path@.subrange(start as int, i as int),
        decreases n - i,
    {
        proof {
            assert(path@.take(i + 1).drop_last() =~= path@.take(i as int));
            assert(path@.take(i + 1).last() == path@[i as int]);
        }
        if path.get_char(i) == '/' {
            start = i + 1;
            proof {
                assert(file_name_of(path@.take(i + 1)) =~= path@.subrange(i + 1, i + 1));
            }
        } else {
            proof {
                assert(file_name_of(path@.take(i + 1)) =~= path@.subrange(
                    start as int,
                    i + 1,
                ));
            }
        }
        i = i + 1;
    }
    proof {
        assert(path@.take(n as int) =~= path@);
    }
    // `dot` is one past the end of the stem: the position of the last dot
    // in the final component, or the end of the path if it has none.
    let mut dot: usize = n;
    let mut j: usize = start;
    while j < n
        invariant
            n == path@.len(),
            start <= j <= n,
            start <= dot <= n,
            dot < n ==> path@[dot as int] == '.',
            forall|k: int| dot < k < j ==> path@[k] != '.',
            dot == n ==> forall|k: int| start <= k < j ==> path@[k] != '.',
        decreases n - j,
    {
        if path.get_char(j) == '.' {
            dot = j;
        }
        j = j + 1;
    }
    let stem = path.substring_char(start, dot);
    proof {
        let name = path@.subrange(start as int, n as int);
        if dot == n {
            assert(!has_dot(name)) by {
                if has_dot(name) {
                    let k = choose|k: int| 0 <= k < name.len() && name[k] == '.';
                    assert(path@[start + k] == '.');
                }
            }
            lemma_stem_no_dot(name);
            assert(stem@ =~= name);
        } else {
            assert(name[dot - start] == '.');
            assert forall|k: int| dot - start < k < name.len() implies name[k] != '.' by {
                assert(name[k] == path@[start + k]);
            }
            lemma_stem_last_dot(name, dot - start);
            assert(stem@ =~= name.take(dot - start));
        }
    }
    stem
}

/// Two path fragments joined by a separator; a base that is empty or
/// already ends in the separator contributes no second one.
pub open spec fn joined(base: Seq<char>, name: Seq<char>) -> Seq<char> {
    if base.len() == 0 {
        name
    } else if base.last() == '/' {
        base + name
    } else {
        base + seq!['/'] + name
    }
}

/// Join a base path and a name with a separator.
pub fn join_path(base: &str, name: &str) -> (r: String)
    ensures
        r@ == joined(base@, name@),
{
    let n = base.unicode_len();
    if n == 0 {
        let r = name.to_owned();
        proof {
            assert(r@ =~= joined(base@, name@));
        }
        r
    } else if base.get_char(n - 1) == '/' {
        let mut r = base.to_owned();
        r.append(name);
        proof {
            assert(r@ =~= joined(base@, name@));
        }
        r
    } else {
        let mut r = base.to_owned();
        r.append("/");
        r.append(name);
        proof {
            reveal_strlit("/");
            assert("/"@ =~= seq!['/']);
            assert(r@ =~= joined(base@, name@));
        }
        r
    }
}

} // verus!
