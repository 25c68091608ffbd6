//! Plain text utilities: a lexicographic order on character sequences (the
//! order in which texture sets are visited), rendering a number in decimal,
//! and dropping duplicate entries from a list of strings.

use vstd::prelude::*;

use vstd::string::StrSliceExecFns;
use vstd::string::StringExecFns;

verus! {

/// Lexicographic "strictly less than" on the suffixes of `a` and `b` that
/// start at position `i`, comparing characters by their code points.
pub open spec fn lex_lt_from(a: Seq<char>, b: Seq<char>, i: int) -> bool
    decreases b.len() - i,
{
    if i >= b.len() {
        false
    } else if i >= a.len() {
        true
    } else if (a[i] as u32) < (b[i] as u32) {
        true
    } else if a[i] == b[i] {
        lex_lt_from(a, b, i + 1)
    } else {
        false
    }
}

/// Lexicographic "strictly less than" on character sequences.
pub open spec fn lex_lt(a: Seq<char>, b: Seq<char>) -> bool {
    lex_lt_from(a, b, 0)
}

/// The order is irreflexive and total: of two suffixes, either one is
/// strictly smaller than the other or they agree pointwise, and never both.
pub proof fn lemma_lex_trichotomy_from(a: Seq<char>, b: Seq<char>, i: int)
    requires
        0 <= i <= a.len(),
        0 <= i <= b.len(),
    ensures
        lex_lt_from(a, b, i) || lex_lt_from(b, a, i) || (a.len() == b.len() && forall|k: int|
            i <= k < a.len() ==> a[k] == b[k]),
        !(lex_lt_from(a, b, i) && lex_lt_from(b, a, i)),
        lex_lt_from(a, b, i) ==> !(a.len() == b.len() && forall|k: int|
            i <= k < a.len() ==> a[k] == b[k]),
    decreases a.len() - i,
{
    if i >= a.len() || i >= b.len() {
    } else if a[i] == b[i] {
        lemma_lex_trichotomy_from(a, b, i + 1);
        if !lex_lt_from(a, b, i + 1) && !lex_lt_from(b, a, i + 1) {
            assert(forall|k: int| i <= k < a.len() ==> a[k] == b[k]);
        }
    } else {
        assert(a[i] as u32 != b[i] as u32) by {
            if a[i] as u32 == b[i] as u32 {
                char_code_injective(a[i], b[i]);
            }
        }
        if (a[i] as u32) < (b[i] as u32) {
            assert(lex_lt_from(a, b, i));
        } else {
            assert(lex_lt_from(b, a, i));
        }
    }
}

/// Two characters with the same code point are the same character.
proof fn char_code_injective(x: char, y: char)
    requires
        x as u32 == y as u32,
    ensures
        x == y,
{
}

/// The order on whole sequences is irreflexive and total.
pub proof fn lemma_lex_trichotomy(a: Seq<char>, b: Seq<char>)
    ensures
        lex_lt(a, b) || lex_lt(b, a) || a == b,
        !(lex_lt(a, b) && lex_lt(b, a)),
        lex_lt(a, b) ==> a != b,
{
    lemma_lex_trichotomy_from(a, b, 0);
    if !lex_lt(a, b) && !lex_lt(b, a) {
        assert(a =~= b);
    }
    if lex_lt(a, b) && a == b {
        assert(forall|k: int| 0 <= k < a.len() ==> a[k] == b[k]);
    }
}

/// The order is transitive.
pub proof fn lemma_lex_transitive_from(a: Seq<char>, b: Seq<char>, c: Seq<char>, i: int)
    requires
        0 <= i,
        lex_lt_from(a, b, i),
        lex_lt_from(b, c, i),
    ensures
        lex_lt_from(a, c, i),
    decreases c.len() - i,
{
    if i >= b.len() {
        assert(!lex_lt_from(b, c, i) || i < c.len());
    } else if i < a.len() && i < b.len() && i < c.len() {
        if a[i] == b[i] && b[i] == c[i] {
            lemma_lex_transitive_from(a, b, c, i + 1);
        }
    }
}

/// The order on whole sequences is transitive.
pub proof fn lemma_lex_transitive(a: Seq<char>, b: Seq<char>, c: Seq<char>)
    requires
        lex_lt(a, b),
        lex_lt(b, c),
    ensures
        lex_lt(a, c),
{
    lemma_lex_transitive_from(a, b, c, 0);
}

/// Compares two strings in the lexicographic order of their characters.
pub fn str_lt(a: &str, b: &str) -> (r: bool)
    ensures
        r == lex_lt(a@, b@),
{
    let la: usize = a.unicode_len();
    let lb: usize = b.unicode_len();
    let mut i: usize = 0;
    loop
        invariant
            i <= la,
            i <= lb,
            la == a@.len(),
            lb == b@.len(),
            lex_lt(a@, b@) == lex_lt_from(a@, b@, i as int),
        decreases lb - i,
    {
        if i >= lb {
            return false;
        }
        if i >= la {
            return true;
        }
        let ca: u32 = a.get_char(i) as u32;
        let cb: u32 = b.get_char(i) as u32;
        if ca < cb {
            return true;
        }
        if ca > cb {
            return false;
        }
        i = i + 1;
    }
}

/// Tests two strings for equality of their characters.
pub fn str_eq(a: &str, b: &str) -> (r: bool)
    ensures
        r == (a@ == b@),
{
    let la: usize = a.unicode_len();
    let lb: usize = b.unicode_len();
    if la != lb {
        proof {
            assert(a@ != b@);
        }
        return false;
    }
    let mut i: usize = 0;
    while i < la
        invariant
            i <= la,
            la == a@.len(),
            la == b@.len(),
            forall|k: int| 0 <= k < i ==> a@[k] == b@[k],
        decreases la - i,
    {
        let ca: char = a.get_char(i);
        let cb: char = b.get_char(i);
        if ca as u32 != cb as u32 {
            proof {
                assert(a@[i as int] != b@[i as int]);
            }
            return false;
        }
        i = i + 1;
    }
    proof {
        assert(a@ =~= b@);
    }
    true
}

/// The character of a single decimal digit.
pub open spec fn digit_char(d: nat) -> char {
    if d == 0 {
        '0'
    } else if d == 1 {
        '1'
    } else if d == 2 {
        '2'
    } else if d == 3 {
        '3'
    } else if d == 4 {
        '4'
    } else if d == 5 {
        '5'
    } else if d == 6 {
        '6'
    } else if d == 7 {
        '7'
    } else if d == 8 {
        '8'
    } else {
        '9'
    }
}

/// The decimal digits of a number, most significant first, no leading zeros
/// (a single zero for the number zero).
pub open spec fn spec_decimal(n: nat) -> Seq<char>
    decreases n,
{
    if n < 10 {
        seq![digit_char(n)]
    } else {
        spec_decimal(n / 10).push(digit_char(n % 10))
    }
}

/// The string of one decimal digit.
fn digit_str(d: u64) -> (r: &'static str)
    requires
        d < 10,
    ensures
        r@ == seq![digit_char(d as nat)],
{
    proof {
        reveal_strlit("0");
        reveal_strlit("1");
        reveal_strlit("2");
        reveal_strlit("3");
        reveal_strlit("4");
        reveal_strlit("5");
        reveal_strlit("6");
        reveal_strlit("7");
        reveal_strlit("8");
        reveal_strlit("9");
    }
    let r: &'static str = if d == 0 {
        "0"
    } else if d == 1 {
        "1"
    } else if d == 2 {
        "2"
    } else if d == 3 {
        "3"
    } else if d == 4 {
        "4"
    } else if d == 5 {
        "5"
    } else if d == 6 {
        "6"
    } else if d == 7 {
        "7"
    } else if d == 8 {
        "8"
    } else {
        "9"
    };
    proof {
        assert(r@ =~= seq![digit_char(d as nat)]);
    }
    r
}

/// Renders a number in decimal.
pub fn u64_to_string(n: u64) -> (s: String)
    ensures
        s@ == spec_decimal(n as nat),
    decreases n,
{
    if n < 10 {
        digit_str(n).to_owned()
    } else {
        let mut s: String = u64_to_string(n / 10);
        s.append(digit_str(n % 10));
        proof {
            assert(s@ =~= spec_decimal(n as nat));
        }
        s
    }
}

/// The views of a sequence of strings.
pub open spec fn views(v: Seq<String>) -> Seq<Seq<char>> {
    v.map_values(|s: String| s@)
}

/// Whether some string of `v` has the same characters as `x`.
fn contains_string(v: &Vec<String>, x: &String) -> (r: bool)
    ensures
        r == views(v@).contains(x@),
{
    let mut i: usize = 0;
    while i < v.len()
        invariant
            i <= v@.len(),
            forall|k: int| 0 <= k < i ==> views(v@)[k] != x@,
        decreases v@.len() - i,
    {
        if str_eq(v[i].as_str(), x.as_str()) {
            proof {
                assert(views(v@)[i as int] == x@);
            }
            return true;
        }
        i = i + 1;
    }
    proof {
        if views(v@).contains(x@) {
            let k = choose|k: int| 0 <= k < views(v@).len() && views(v@)[k] == x@;
            assert(views(v@)[k] == x@);
        }
    }
    false
}

/// Consumes the vector and returns a new vector with all duplicate elements
/// removed. Unique elements are preserved in order of first occurrence.
pub fn remove_duplicates(input: Vec<String>) -> (output: Vec<String>)
    ensures
        views(output@) == views(input@).remove_duplicates(Seq::<Seq<char>>::empty()),
{
    let mut output: Vec<String> = Vec::new();
    let mut i: usize = 0;
    proof {
        assert(views(input@).subrange(0, input@.len() as int) =~= views(input@));
        assert(views(output@) =~= Seq::<Seq<char>>::empty());
    }
    while i < input.len()
        invariant
            i <= input@.len(),
            views(input@).subrange(i as int, input@.len() as int).remove_duplicates(views(output@))
                == views(input@).remove_duplicates(Seq::<Seq<char>>::empty()),
        decreases input@.len() - i,
    {
        let ghost pre: Seq<Seq<char>> = views(input@).subrange(i as int, input@.len() as int);
        let ghost out_pre: Seq<Seq<char>> = views(output@);
        let elem: String = input[i].clone();
        proof {
            assert(pre[0] == elem@);
            assert(pre.skip(1) =~= views(input@).subrange(i + 1, input@.len() as int));
        }
        if !contains_string(&output, &elem) {
            output.push(elem);
            proof {
                assert(views(output@) =~= out_pre + seq![pre[0]]);
            }
        }
        i = i + 1;
    }
    proof {
        assert(views(input@).subrange(input@.len() as int, input@.len() as int)
            =~= Seq::<Seq<char>>::empty());
    }
    output
}

} // verus!
