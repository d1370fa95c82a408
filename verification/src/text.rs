use vstd::prelude::*;

verus! {

/// True for the blank characters that surround SQL tokens.
pub open spec fn is_ws(c: char) -> bool {
    c == ' ' || c == '\t' || c == '\n' || c == '\r'
}

/// The character sequence with its leading characters satisfying `p` removed.
pub open spec fn drop_leading(s: Seq<char>, p: spec_fn(char) -> bool) -> Seq<char>
    decreases s.len(),
{
    if s.len() == 0 {
        s
    } else if p(s[0]) {
        drop_leading(s.subrange(1, s.len() as int), p)
    } else {
        s
    }
}

/// The prefix of the sequence up to (excluding) the first character
/// satisfying `p`.
pub open spec fn take_until(s: Seq<char>, p: spec_fn(char) -> bool) -> Seq<char>
    decreases s.len(),
{
    if s.len() == 0 {
        s
    } else if p(s[0]) {
        Seq::<char>::empty()
    } else {
        seq![s[0]] + take_until(s.subrange(1, s.len() as int), p)
    }
}

/// The character sequence with its trailing characters satisfying `p` removed.
pub open spec fn drop_trailing(s: Seq<char>, p: spec_fn(char) -> bool) -> Seq<char>
    decreases s.len(),
{
    if s.len() == 0 {
        s
    } else if p(s.last()) {
        drop_trailing(s.drop_last(), p)
    } else {
        s
    }
}

/// The sequence with leading and trailing blanks removed.
pub open spec fn trim_spec(s: Seq<char>) -> Seq<char> {
    drop_trailing(drop_leading(s, |c: char| is_ws(c)), |c: char| is_ws(c))
}

/// The first whitespace-separated token of the text (empty if the text is
/// all blank).
pub open spec fn first_token_spec(s: Seq<char>) -> Seq<char> {
    take_until(drop_leading(s, |c: char| is_ws(c)), |c: char| is_ws(c))
}

/// The prefix of the text up to the first space character.
pub open spec fn space_token_spec(s: Seq<char>) -> Seq<char> {
    take_until(s, |c: char| c == ' ')
}

/// Case folding of a scalar value, over ASCII letters only.
pub open spec fn to_lower_u32(x: u32) -> u32 {
    if 65 <= x <= 90 {
        (x + 32) as u32
    } else {
        x
    }
}

/// Equality of two character sequences up to ASCII case.
pub open spec fn ci_equal(a: Seq<char>, b: Seq<char>) -> bool {
    a.len() == b.len() && forall|i: int|
        0 <= i < a.len() ==> to_lower_u32(#[trigger] a[i] as u32) == to_lower_u32(b[i] as u32)
}

/// True when `p` is a prefix of `a` up to ASCII case.
pub open spec fn ci_prefix(a: Seq<char>, p: Seq<char>) -> bool {
    a.len() >= p.len() && ci_equal(a.subrange(0, p.len() as int), p)
}

proof fn lemma_drop_leading_at(s: Seq<char>, p: spec_fn(char) -> bool, k: int)
    requires
        0 <= k <= s.len(),
        forall|i: int| 0 <= i < k ==> p(#[trigger] s[i]),
        k == s.len() || !p(s[k]),
    ensures
        drop_leading(s, p) == s.subrange(k, s.len() as int),
    decreases k,
{
    if k == 0 {
        if s.len() == 0 {
            assert(s.subrange(0, 0) =~= s);
        } else {
            assert(s.subrange(0, s.len() as int) =~= s);
        }
    } else {
        let s1 = s.subrange(1, s.len() as int);
        assert(forall|i: int| 0 <= i < k - 1 ==> p(#[trigger] s1[i]));
        lemma_drop_leading_at(s1, p, k - 1);
        assert(s1.subrange(k - 1, s1.len() as int) =~= s.subrange(k, s.len() as int));
    }
}

proof fn lemma_take_until_at(s: Seq<char>, p: spec_fn(char) -> bool, k: int)
    requires
        0 <= k <= s.len(),
        forall|i: int| 0 <= i < k ==> !p(#[trigger] s[i]),
        k == s.len() || p(s[k]),
    ensures
        take_until(s, p) == s.subrange(0, k),
    decreases k,
{
    if k == 0 {
        assert(take_until(s, p) =~= s.subrange(0, 0));
    } else {
        let s1 = s.subrange(1, s.len() as int);
        assert(forall|i: int| 0 <= i < k - 1 ==> !p(#[trigger] s1[i]));
        lemma_take_until_at(s1, p, k - 1);
        assert(seq![s[0]] + s1.subrange(0, k - 1) =~= s.subrange(0, k));
    }
}

proof fn lemma_drop_trailing_at(s: Seq<char>, p: spec_fn(char) -> bool, k: int)
    requires
        0 <= k <= s.len(),
        forall|i: int| k <= i < s.len() ==> p(#[trigger] s[i]),
        k == 0 || !p(s[k - 1]),
    ensures
        drop_trailing(s, p) == s.subrange(0, k),
    decreases s.len(),
{
    if k == s.len() {
        if s.len() == 0 {
            assert(s.subrange(0, 0) =~= s);
        } else {
            assert(s.subrange(0, s.len() as int) =~= s);
        }
    } else {
        let s1 = s.drop_last();
        assert(forall|i: int| k <= i < s1.len() ==> p(#[trigger] s1[i]));
        lemma_drop_trailing_at(s1, p, k);
        assert(s1.subrange(0, k) =~= s.subrange(0, k));
    }
}

/// Whether two string slices hold the same characters.
pub fn str_eq(a: &str, b: &str) -> (r: bool)
    ensures
        r == (a@ == b@),
{
    let sa: String = a.to_owned();
    let sb: String = b.to_owned();
    sa == sb
}

fn lower_exec(x: u32) -> (r: u32)
    ensures
        r == to_lower_u32(x),
{
    if 65 <= x && x <= 90 {
        x + 32
    } else {
        x
    }
}

/// Whether two string slices are equal up to ASCII case.
pub fn str_eq_ci(a: &str, b: &str) -> (r: bool)
    ensures
        r == ci_equal(a@, b@),
{
    let la = a.unicode_len();
    let lb = b.unicode_len();
    if la != lb {
        return false;
    }
    let mut i: usize = 0;
    while i < la
        invariant
            la == a@.len(),
            la == b@.len(),
            i <= la,
            forall|j: int|
                0 <= j < i ==> to_lower_u32(#[trigger] a@[j] as u32) == to_lower_u32(b@[j] as u32),
        decreases la - i,
    {
        let ca = a.get_char(i);
        let cb = b.get_char(i);
        if lower_exec(ca as u32) != lower_exec(cb as u32) {
            return false;
        }
        i += 1;
    }
    true
}

/// Whether `p` is a prefix of `a` up to ASCII case.
pub fn str_prefix_ci(a: &str, p: &str) -> (r: bool)
    ensures
        r == ci_prefix(a@, p@),
{
    let la = a.unicode_len();
    let lp = p.unicode_len();
    if la < lp {
        return false;
    }
    let mut i: usize = 0;
    while i < lp
        invariant
            la == a@.len(),
            lp == p@.len(),
            lp <= la,
            i <= lp,
            forall|j: int|
                0 <= j < i ==> to_lower_u32(#[trigger] a@[j] as u32) == to_lower_u32(p@[j] as u32),
        decreases lp - i,
    {
        let ca = a.get_char(i);
        let cp = p.get_char(i);
        if lower_exec(ca as u32) != lower_exec(cp as u32) {
            proof {
                assert(a@.subrange(0, p@.len() as int)[i as int] == a@[i as int]);
            }
            return false;
        }
        i += 1;
    }
    proof {
        assert(forall|j: int|
            0 <= j < p@.len() ==> #[trigger] a@.subrange(0, p@.len() as int)[j] == a@[j]);
    }
    true
}

fn is_ws_exec(c: char) -> (r: bool)
    ensures
        r == is_ws(c),
{
    c == ' ' || c == '\t' || c == '\n' || c == '\r'
}

/// The slice with leading and trailing blanks removed.
pub fn trim(s: &str) -> (r: &str)
    ensures
        r@ == trim_spec(s@),
{
    let len = s.unicode_len();
    let mut lo: usize = 0;
    while lo < len && is_ws_exec(s.get_char(lo))
        invariant
            len == s@.len(),
            lo <= len,
            forall|i: int| 0 <= i < lo ==> is_ws(#[trigger] s@[i]),
        decreases len - lo,
    {
        lo += 1;
    }
    proof {
        lemma_drop_leading_at(s@, |c: char| is_ws(c), lo as int);
    }
    let mut hi: usize = len;
    while hi > lo && is_ws_exec(s.get_char(hi - 1))
        invariant
            len == s@.len(),
            lo <= hi <= len,
            forall|i: int| hi <= i < len ==> is_ws(#[trigger] s@[i]),
        decreases hi,
    {
        hi -= 1;
    }
    let mid: Ghost<Seq<char>> = Ghost(s@.subrange(lo as int, len as int));
    proof {
        assert(forall|i: int|
            hi - lo <= i < mid@.len() ==> is_ws(#[trigger] mid@[i]));
        if hi > lo {
            assert(mid@[hi - lo - 1] == s@[hi - 1]);
        }
        lemma_drop_trailing_at(mid@, |c: char| is_ws(c), hi - lo);
        assert(mid@.subrange(0, hi - lo) =~= s@.subrange(lo as int, hi as int));
    }
    s.substring_char(lo, hi)
}

/// The first whitespace-separated token of the text.
pub fn first_token(s: &str) -> (r: &str)
    ensures
        r@ == first_token_spec(s@),
{
    let len = s.unicode_len();
    let mut lo: usize = 0;
    while lo < len && is_ws_exec(s.get_char(lo))
        invariant
            len == s@.len(),
            lo <= len,
            forall|i: int| 0 <= i < lo ==> is_ws(#[trigger] s@[i]),
        decreases len - lo,
    {
        lo += 1;
    }
    proof {
        lemma_drop_leading_at(s@, |c: char| is_ws(c), lo as int);
    }
    let mut hi: usize = lo;
    while hi < len && !is_ws_exec(s.get_char(hi))
        invariant
            len == s@.len(),
            lo <= hi <= len,
            forall|i: int| lo <= i < hi ==> !is_ws(#[trigger] s@[i]),
        decreases len - hi,
    {
        hi += 1;
    }
    let rest: Ghost<Seq<char>> = Ghost(s@.subrange(lo as int, len as int));
    proof {
        assert(forall|i: int| 0 <= i < hi - lo ==> !is_ws(#[trigger] rest@[i]));
        if hi < len {
            assert(rest@[hi - lo] == s@[hi as int]);
        }
        lemma_take_until_at(rest@, |c: char| is_ws(c), hi - lo);
        assert(rest@.subrange(0, hi - lo) =~= s@.subrange(lo as int, hi as int));
    }
    s.substring_char(lo, hi)
}

/// The prefix of the text up to the first space character.
pub fn space_token(s: &str) -> (r: &str)
    ensures
        r@ == space_token_spec(s@),
{
    let len = s.unicode_len();
    let mut hi: usize = 0;
    while hi < len && s.get_char(hi) != ' '
        invariant
            len == s@.len(),
            hi <= len,
            forall|i: int| 0 <= i < hi ==> #[trigger] s@[i] != ' ',
        decreases len - hi,
    {
        hi += 1;
    }
    proof {
        lemma_take_until_at(s@, |c: char| c == ' ', hi as int);
    }
    s.substring_char(0, hi)
}

} // verus!
