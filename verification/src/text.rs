//! Verified string helpers the core leans on: equality and ordering of
//! names, decimal rendering of page numbers, joining engine names into a
//! cache signature, and trimming user queries.

use vstd::prelude::*;
use vstd::string::StrSliceExecFns;
use vstd::string::StringExecFns;

verus! {

/// Character-for-character equality of two string slices.
pub fn str_eq(a: &str, b: &str) -> (r: bool)
    ensures
        r == (a@ == b@),
{
    let alen = a.unicode_len();
    let blen = b.unicode_len();
    if alen != blen {
        return false;
    }
    let mut i: usize = 0;
    while i < alen
        invariant
            alen == a@.len(),
            alen == b@.len(),
            i <= alen,
            forall|k: int| 0 <= k < i ==> a@[k] == b@[k],
        decreases alen - i,
    {
        if a.get_char(i) != b.get_char(i) {
            return false;
        }
        i += 1;
    }
    proof {
        assert(a@ =~= b@);
    }
    true
}

/// Whether `names` holds a string equal to `name`.
pub fn contains_name(names: &Vec<String>, name: &String) -> (r: bool)
    ensures
        r == names.deep_view().contains(name@),
{
    let mut i: usize = 0;
    while i < names.len()
        invariant
            i <= names@.len(),
            forall|k: int| 0 <= k < i ==> names.deep_view()[k] != name@,
        decreases names@.len() - i,
    {
        if names[i].eq(name) {
            proof {
                assert(names.deep_view()[i as int] == name@);
            }
            return true;
        }
        i += 1;
    }
    proof {
        if names.deep_view().contains(name@) {
            let k = choose|k: int|
                0 <= k < names.deep_view().len() && names.deep_view()[k] == name@;
            assert(names.deep_view()[k] != name@);
        }
    }
    false
}

/// A fresh vector holding copies of the given names.
pub fn clone_names(names: &Vec<String>) -> (r: Vec<String>)
    ensures
        r@ == names@,
        r.deep_view() == names.deep_view(),
{
    let mut r: Vec<String> = Vec::new();
    let mut i: usize = 0;
    while i < names.len()
        invariant
            i <= names@.len(),
            r@.len() == i,
            forall|k: int| 0 <= k < i ==> r@[k] == names@[k],
        decreases names@.len() - i,
    {
        let x = names[i].clone();
        r.push(x);
        i += 1;
    }
    proof {
        assert(r@ =~= names@);
        assert(r.deep_view() =~= names.deep_view());
    }
    r
}

/// The character standing for one decimal digit.
pub open spec fn dec_digit(d: nat) -> char {
    if d == 0 {
        '0'
    } else if d == 1 {
        '1'
    } else if d == 2 {
        '2'
    } else if d == 3 {
        '3'
    } else if d == 4 {
        '4'
    } else if d == 5 {
        '5'
    } else if d == 6 {
        '6'
    } else if d == 7 {
        '7'
    } else if d == 8 {
        '8'
    } else {
        '9'
    }
}

/// Decimal rendering of a number, most significant digit first, no sign and
/// no leading zeros.
pub open spec fn dec_str(n: nat) -> Seq<char>
    decreases n,
{
    if n < 10 {
        seq![dec_digit(n)]
    } else {
        dec_str(n / 10).push(dec_digit(n % 10))
    }
}

fn dec_digit_str(d: u32) -> (s: &'static str)
    requires
        d < 10,
    ensures
        s@ == seq![dec_digit(d as nat)],
{
    if d == 0 {
        proof {
            reveal_strlit("0");
        }
        proof {
            assert("0"@ =~= seq![dec_digit(0)]);
        }
        "0"
    } else if d == 1 {
        proof {
            reveal_strlit("1");
            assert("1"@ =~= seq![dec_digit(1)]);
        }
        "1"
    } else if d == 2 {
        proof {
            reveal_strlit("2");
            assert("2"@ =~= seq![dec_digit(2)]);
        }
        "2"
    } else if d == 3 {
        proof {
            reveal_strlit("3");
            assert("3"@ =~= seq![dec_digit(3)]);
        }
        "3"
    } else if d == 4 {
        proof {
            reveal_strlit("4");
            assert("4"@ =~= seq![dec_digit(4)]);
        }
        "4"
    } else if d == 5 {
        proof {
            reveal_strlit("5");
            assert("5"@ =~= seq![dec_digit(5)]);
        }
        "5"
    } else if d == 6 {
        proof {
            reveal_strlit("6");
            assert("6"@ =~= seq![dec_digit(6)]);
        }
        "6"
    } else if d == 7 {
        proof {
            reveal_strlit("7");
            assert("7"@ =~= seq![dec_digit(7)]);
        }
        "7"
    } else if d == 8 {
        proof {
            reveal_strlit("8");
            assert("8"@ =~= seq![dec_digit(8)]);
        }
        "8"
    } else {
        proof {
            reveal_strlit("9");
            assert("9"@ =~= seq![dec_digit(9)]);
        }
        "9"
    }
}

/// Renders a page number in decimal.
pub fn u32_to_dec(n: u32) -> (s: String)
    ensures
        s@ == dec_str(n as nat),
    decreases n,
{
    if n < 10 {
        let d = dec_digit_str(n);
        d.to_owned()
    } else {
        proof {
            assert(n as nat / 10 < n as nat) by (nonlinear_arith)
                requires
                    n >= 10,
            ;
        }
        let mut s = u32_to_dec(n / 10);
        let d = dec_digit_str(n % 10);
        s.append(d);
        proof {
            assert(s@ =~= dec_str((n / 10) as nat).push(dec_digit((n % 10) as nat)));
            assert((n / 10) as nat == n as nat / 10);
            assert((n % 10) as nat == n as nat % 10);
        }
        s
    }
}

/// A decimal rendering is never empty.
pub proof fn lemma_dec_str_len(n: nat)
    ensures
        dec_str(n).len() >= 1,
        n >= 10 ==> dec_str(n).len() >= 2,
    decreases n,
{
    if n >= 10 {
        assert(n / 10 < n) by (nonlinear_arith)
            requires
                n >= 10,
        ;
        lemma_dec_str_len(n / 10);
    }
}

/// Two numbers with the same decimal rendering are the same number.
pub proof fn lemma_dec_str_injective(m: nat, n: nat)
    requires
        dec_str(m) == dec_str(n),
    ensures
        m == n,
    decreases m,
{
    lemma_dec_str_len(m);
    lemma_dec_str_len(n);
    if m < 10 && n < 10 {
        assert(dec_str(m)[0] == dec_digit(m));
        assert(dec_str(n)[0] == dec_digit(n));
    } else if m >= 10 && n >= 10 {
        assert(m / 10 < m) by (nonlinear_arith)
            requires
                m >= 10,
        ;
        assert(dec_str(m).last() == dec_digit(m % 10));
        assert(dec_str(n).last() == dec_digit(n % 10));
        assert(m % 10 == n % 10);
        assert(dec_str(m).drop_last() =~= dec_str(m / 10));
        assert(dec_str(n).drop_last() =~= dec_str(n / 10));
        lemma_dec_str_injective(m / 10, n / 10);
        assert(m == 10 * (m / 10) + m % 10) by (nonlinear_arith);
        assert(n == 10 * (n / 10) + n % 10) by (nonlinear_arith);
    } else if m < 10 {
        assert(dec_str(m).len() == 1);
        assert(dec_str(n).len() >= 2);
    } else {
        assert(dec_str(n).len() == 1);
        assert(dec_str(m).len() >= 2);
    }
}

/// The names joined with a comma between neighbors.
pub open spec fn joined_names(names: Seq<Seq<char>>) -> Seq<char>
    decreases names.len(),
{
    if names.len() == 0 {
        Seq::<char>::empty()
    } else if names.len() == 1 {
        names[0]
    } else {
        joined_names(names.drop_last()) + ","@ + names.last()
    }
}

/// Joins the names with commas, as the cache signature carries them.
pub fn join_names(names: &Vec<String>) -> (s: String)
    ensures
        s@ == joined_names(names.deep_view()),
{
    let mut s = String::new();
    let mut i: usize = 0;
    while i < names.len()
        invariant
            i <= names@.len(),
            s@ == joined_names(names.deep_view().take(i as int)),
        decreases names@.len() - i,
    {
        if i > 0 {
            s.append(",");
        }
        s.append(names[i].as_str());
        proof {
            let dv = names.deep_view();
            assert(dv.take(i as int + 1).drop_last() =~= dv.take(i as int));
            assert(dv.take(i as int + 1).last() == dv[i as int]);
        }
        i += 1;
    }
    proof {
        assert(names.deep_view().take(names@.len() as int) =~= names.deep_view());
    }
    s
}

/// Whitespace as user queries carry it.
pub open spec fn is_space(c: char) -> bool {
    c == ' ' || c == '\t' || c == '\n' || c == '\r' || c == '\u{0b}' || c == '\u{0c}'
}

/// Every character of the sequence is whitespace; true of the empty one.
pub open spec fn blank(s: Seq<char>) -> bool {
    forall|i: int| 0 <= i < s.len() ==> is_space(#[trigger] s[i])
}

/// The sequence without its leading whitespace.
pub open spec fn trim_front(s: Seq<char>) -> Seq<char>
    decreases s.len(),
{
    if s.len() == 0 {
        s
    } else if is_space(s[0]) {
        trim_front(s.skip(1))
    } else {
        s
    }
}

/// The sequence without its trailing whitespace.
pub open spec fn trim_back(s: Seq<char>) -> Seq<char>
    decreases s.len(),
{
    if s.len() == 0 {
        s
    } else if is_space(s.last()) {
        trim_back(s.drop_last())
    } else {
        s
    }
}

/// The sequence without leading and trailing whitespace.
pub open spec fn trimmed(s: Seq<char>) -> Seq<char> {
    trim_back(trim_front(s))
}

fn is_space_char(c: char) -> (r: bool)
    ensures
        r == is_space(c),
{
    c == ' ' || c == '\t' || c == '\n' || c == '\r' || c == '\u{0b}' || c == '\u{0c}'
}

/// Removes leading and trailing whitespace from a query.
pub fn trim_str(s: &str) -> (r: String)
    ensures
        r@ == trimmed(s@),
{
    let len = s.unicode_len();
    let mut lo: usize = 0;
    proof {
        assert(s@.skip(0) =~= s@);
    }
    while lo < len && is_space_char(s.get_char(lo))
        invariant
            len == s@.len(),
            lo <= len,
            trim_front(s@) == trim_front(s@.skip(lo as int)),
        decreases len - lo,
    {
        proof {
            assert(s@.skip(lo as int).skip(1) =~= s@.skip(lo as int + 1));
        }
        lo += 1;
    }
    proof {
        if lo == len {
            assert(s@.skip(lo as int) =~= Seq::<char>::empty());
        }
    }
    let mut hi: usize = len;
    proof {
        assert(s@.skip(lo as int).take(len - lo) =~= s@.skip(lo as int));
    }
    while hi > lo && is_space_char(s.get_char(hi - 1))
        invariant
            len == s@.len(),
            lo <= hi <= len,
            trim_front(s@) == trim_front(s@.skip(lo as int)),
            lo == len || !is_space(s@[lo as int]),
            trim_back(s@.skip(lo as int)) == trim_back(
                s@.skip(lo as int).take(hi - lo),
            ),
        decreases hi,
    {
        proof {
            let t = s@.skip(lo as int);
            let w = hi - lo;
            assert(t.take(w).last() == s@[hi - 1]);
            assert(t.take(w).drop_last() =~= t.take(w - 1));
        }
        hi -= 1;
    }
    let sub = s.substring_char(lo, hi);
    let r = sub.to_owned();
    proof {
        let t = s@.skip(lo as int);
        if lo == len {
            assert(trim_front(s@) == trim_front(Seq::<char>::empty()));
            assert(trimmed(s@) =~= Seq::<char>::empty());
            assert(r@ =~= trimmed(s@));
        } else {
            assert(trim_front(t) == t);
            assert(trimmed(s@) == trim_back(t));
            if hi == lo {
                assert(t.take(0) =~= Seq::<char>::empty());
                assert(r@ =~= trimmed(s@));
            } else {
                assert(t.take(hi - lo).last() == s@[hi - 1]);
                assert(!is_space(t.take(hi - lo).last()));
                assert(trim_back(t.take(hi - lo)) == t.take(hi - lo));
                assert(t.take(hi - lo) =~= s@.subrange(lo as int, hi as int));
                assert(r@ =~= trimmed(s@));
            }
        }
    }
    r
}

proof fn lemma_trim_front_blank(s: Seq<char>)
    requires
        blank(s),
    ensures
        trim_front(s).len() == 0,
    decreases s.len(),
{
    if s.len() > 0 {
        assert(is_space(s[0]));
        assert forall|i: int| 0 <= i < s.skip(1).len() implies is_space(#[trigger] s.skip(1)[i]) by {
            assert(s.skip(1)[i] == s[i + 1]);
        }
        lemma_trim_front_blank(s.skip(1));
    }
}

proof fn lemma_trim_front_not_blank(s: Seq<char>)
    requires
        !blank(s),
    ensures
        !blank(trim_front(s)),
    decreases s.len(),
{
    let w = choose|i: int| 0 <= i < s.len() && !is_space(s[i]);
    if is_space(s[0]) {
        assert(s.skip(1)[w - 1] == s[w]);
        assert(!blank(s.skip(1)));
        lemma_trim_front_not_blank(s.skip(1));
    }
}

proof fn lemma_trim_back_not_blank(s: Seq<char>)
    requires
        !blank(s),
    ensures
        trim_back(s).len() > 0,
    decreases s.len(),
{
    let w = choose|i: int| 0 <= i < s.len() && !is_space(s[i]);
    if is_space(s.last()) {
        assert(w < s.len() - 1);
        assert(s.drop_last()[w] == s[w]);
        assert(!blank(s.drop_last()));
        lemma_trim_back_not_blank(s.drop_last());
    }
}

/// A query is blank exactly when trimming leaves nothing of it.
pub proof fn lemma_blank_iff_trim_empty(s: Seq<char>)
    ensures
        blank(s) <==> trimmed(s).len() == 0,
{
    if blank(s) {
        lemma_trim_front_blank(s);
        assert(trim_front(s).len() == 0);
    } else {
        lemma_trim_front_not_blank(s);
        lemma_trim_back_not_blank(trim_front(s));
    }
}

/// Lexicographic order on character sequences, by code point.
pub open spec fn lex_le(a: Seq<char>, b: Seq<char>) -> bool
    decreases a.len(),
{
    if a.len() == 0 {
        true
    } else if b.len() == 0 {
        false
    } else if (a[0] as u32) < (b[0] as u32) {
        true
    } else if (a[0] as u32) > (b[0] as u32) {
        false
    } else {
        lex_le(a.skip(1), b.skip(1))
    }
}

/// The lexicographic order is reflexive.
pub proof fn lemma_lex_le_refl(a: Seq<char>)
    ensures
        lex_le(a, a),
    decreases a.len(),
{
    if a.len() > 0 {
        lemma_lex_le_refl(a.skip(1));
    }
}

/// Any two character sequences are ordered one way or the other.
pub proof fn lemma_lex_le_total(a: Seq<char>, b: Seq<char>)
    ensures
        lex_le(a, b) || lex_le(b, a),
    decreases a.len(),
{
    if a.len() > 0 && b.len() > 0 && (a[0] as u32) == (b[0] as u32) {
        lemma_lex_le_total(a.skip(1), b.skip(1));
    }
}

/// The lexicographic order is transitive.
pub proof fn lemma_lex_le_trans(a: Seq<char>, b: Seq<char>, c: Seq<char>)
    requires
        lex_le(a, b),
        lex_le(b, c),
    ensures
        lex_le(a, c),
    decreases a.len(),
{
    if a.len() == 0 {
    } else {
        assert(b.len() > 0);
        assert(c.len() > 0);
        if (a[0] as u32) == (b[0] as u32) && (b[0] as u32) == (c[0] as u32) {
            lemma_lex_le_trans(a.skip(1), b.skip(1), c.skip(1));
        }
    }
}

/// Whether one string slice comes no later than another, in lexicographic
/// order by code point.
pub fn str_le(a: &str, b: &str) -> (r: bool)
    ensures
        r == lex_le(a@, b@),
{
    let alen = a.unicode_len();
    let blen = b.unicode_len();
    let mut i: usize = 0;
    proof {
        assert(a@.skip(0) =~= a@);
        assert(b@.skip(0) =~= b@);
    }
    while i < alen && i < blen
        invariant
            alen == a@.len(),
            blen == b@.len(),
            i <= alen,
            i <= blen,
            lex_le(a@, b@) == lex_le(a@.skip(i as int), b@.skip(i as int)),
        decreases alen - i,
    {
        let ca = a.get_char(i);
        let cb = b.get_char(i);
        let ua = ca as u32;
        let ub = cb as u32;
        if ua < ub {
            return true;
        }
        if ua > ub {
            return false;
        }
        proof {
            assert(a@.skip(i as int).skip(1) =~= a@.skip(i as int + 1));
            assert(b@.skip(i as int).skip(1) =~= b@.skip(i as int + 1));
        }
        i += 1;
    }
    proof {
        if i == alen {
            assert(a@.skip(i as int).len() == 0);
        } else {
            assert(i == blen);
            assert(b@.skip(i as int).len() == 0);
            assert(a@.skip(i as int).len() > 0);
        }
    }
    alen <= blen
}

/// Ascending lexicographic order over a sequence of names.
pub open spec fn names_sorted(s: Seq<String>) -> bool {
    forall|i: int, j: int| 0 <= i <= j < s.len() ==> lex_le(#[trigger] s[i]@, #[trigger] s[j]@)
}

/// Sorts names in place, ascending lexicographically; a permutation of the
/// input.
pub fn sort_names(v: &mut Vec<String>)
    ensures
        final(v)@.len() == old(v)@.len(),
        names_sorted(final(v)@),
        final(v)@.to_multiset() == old(v)@.to_multiset(),
{
    let n = v.len();
    if n <= 1 {
        proof {
            if n == 1 {
                lemma_lex_le_refl(v@[0]@);
            }
        }
        return ;
    }
    proof {
        lemma_lex_le_refl(v@[0]@);
        assert(names_sorted(v@.take(1)));
    }
    let mut i: usize = 1;
    while i < n
        invariant
            1 <= i <= n,
            n == v@.len(),
            names_sorted(v@.take(i as int)),
            v@.to_multiset() == old(v)@.to_multiset(),
        decreases n - i,
    {
        let ghost s = v@;
        let x = v.remove(i);
        let mut j: usize = i;
        while j > 0 && !str_le(v[j - 1].as_str(), x.as_str())
            invariant
                j <= i < s.len(),
                n == s.len(),
                v@ == s.remove(i as int),
                x == s[i as int],
                forall|t: int| j <= t < i ==> !lex_le(#[trigger] s[t]@, x@),
            decreases j,
        {
            j -= 1;
        }
        v.insert(j, x);
        proof {
            let s2 = s.remove(i as int).insert(j as int, s[i as int]);
            assert(v@ == s2);
            crate::seqs::lemma_remove_insert_pointwise(s, i as int, j as int);
            crate::seqs::lemma_remove_insert_multiset(s, i as int, j as int);
            assert forall|a: int, b: int| 0 <= a <= b < i + 1 implies lex_le(
                #[trigger] s2[a]@,
                #[trigger] s2[b]@,
            ) by {
                let fa = crate::seqs::moved_from(i as int, j as int, a);
                let fb = crate::seqs::moved_from(i as int, j as int, b);
                assert(s2[a] == s[fa]);
                assert(s2[b] == s[fb]);
                if a == b {
                    lemma_lex_le_total(s2[a]@, s2[a]@);
                } else if a == j as int {
                    assert(fb == b - 1 && j as int <= b - 1 < i);
                    assert(!lex_le(s[fb]@, x@));
                    lemma_lex_le_total(s[fb]@, x@);
                } else if b == j as int {
                    assert(fa == a && a < j as int);
                    if j > 0 {
                        assert(lex_le(s[j as int - 1]@, x@));
                        if a < j as int - 1 {
                            assert(lex_le(s[fa]@, s[j as int - 1]@));
                            lemma_lex_le_trans(s[fa]@, s[j as int - 1]@, x@);
                        }
                    }
                } else {
                    assert(0 <= fa <= fb < i);
                    assert(lex_le(s[fa]@, s[fb]@));
                }
            }
            assert(names_sorted(s2.take(i as int + 1)));
        }
        i += 1;
    }
    proof {
        assert(v@.take(n as int) =~= v@);
    }
}

} // verus!
