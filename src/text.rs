use vstd::prelude::*;

verus! {

/// Whether `c` lies in the CJK Unified Ideographs block.
pub open spec fn cjk(c: char) -> bool {
    '\u{4E00}' <= c && c <= '\u{9FFF}'
}

/// ASCII letters and digits.
pub open spec fn ascii_alnum(c: char) -> bool {
    ('0' <= c && c <= '9') || ('a' <= c && c <= 'z') || ('A' <= c && c <= 'Z')
}

/// Unicode `White_Space`, the set that `char::is_whitespace` documents.
pub open spec fn white(c: char) -> bool {
    ('\u{9}' <= c && c <= '\u{D}') || c == ' ' || c == '\u{85}' || c == '\u{A0}'
        || c == '\u{1680}' || ('\u{2000}' <= c && c <= '\u{200A}') || c == '\u{2028}'
        || c == '\u{2029}' || c == '\u{202F}' || c == '\u{205F}' || c == '\u{3000}'
}

/// Every "\r\n" pair replaced by "\n", scanning left to right.
pub open spec fn crlf_to_lf(s: Seq<char>) -> Seq<char>
    decreases s.len(),
{
    if s.len() == 0 {
        s
    } else if s.len() >= 2 && s[0] == '\r' && s[1] == '\n' {
        seq!['\n'] + crlf_to_lf(s.subrange(2, s.len() as int))
    } else {
        seq![s[0]] + crlf_to_lf(s.drop_first())
    }
}

/// `s` without its leading white space.
pub open spec fn trim_start(s: Seq<char>) -> Seq<char>
    decreases s.len(),
{
    if s.len() > 0 && white(s[0]) {
        trim_start(s.drop_first())
    } else {
        s
    }
}

/// `s` without its trailing white space.
pub open spec fn trim_end(s: Seq<char>) -> Seq<char>
    decreases s.len(),
{
    if s.len() > 0 && white(s.last()) {
        trim_end(s.drop_last())
    } else {
        s
    }
}

/// Line endings unified, then white space trimmed at both ends.
pub open spec fn normalized(s: Seq<char>) -> Seq<char> {
    trim_end(trim_start(crlf_to_lf(s)))
}

/// At most `max` characters of `t`, with an ellipsis where something was cut.
pub open spec fn sliced(t: Seq<char>, max: nat) -> Seq<char> {
    if t.len() <= max {
        t
    } else {
        t.take(max as int).push('…')
    }
}

/// Whether `s` begins with `p`.
pub open spec fn starts_with(s: Seq<char>, p: Seq<char>) -> bool {
    p.len() <= s.len() && s.take(p.len() as int) == p
}

/// The first `n` characters of `t`, or all of `t` where it is shorter.
pub open spec fn prefix(t: Seq<char>, n: nat) -> Seq<char> {
    if t.len() <= n {
        t
    } else {
        t.take(n as int)
    }
}

/// The run `cur` as a token, if it is not empty.
pub open spec fn flush(cur: Seq<char>) -> Seq<Seq<char>> {
    if cur.len() > 0 {
        seq![cur]
    } else {
        seq![]
    }
}

/// Tokens of `s` when the run `cur` precedes it: maximal runs of ASCII
/// letters and digits are words, each CJK ideograph is a token of its own,
/// every other character separates.
pub open spec fn tokens_from(s: Seq<char>, cur: Seq<char>) -> Seq<Seq<char>>
    decreases s.len(),
{
    if s.len() == 0 {
        flush(cur)
    } else if ascii_alnum(s[0]) {
        tokens_from(s.drop_first(), cur.push(s[0]))
    } else if cjk(s[0]) {
        flush(cur) + seq![seq![s[0]]] + tokens_from(s.drop_first(), seq![])
    } else {
        flush(cur) + tokens_from(s.drop_first(), seq![])
    }
}

pub open spec fn tokens(s: Seq<char>) -> Seq<Seq<char>> {
    tokens_from(s, seq![])
}

/// What `str::to_lowercase` makes of a text.
pub uninterp spec fn lower_of(s: Seq<char>) -> Seq<char>;

/// Relies on `str::chars`: yields the characters of `s` in order.
#[verifier::external_body]
pub(crate) fn chars_of(s: &str) -> (r: Vec<char>)
    ensures
        r@ == s@,
{
    s.chars().collect()
}

/// Relies on `String::from_iter`: the characters in order.
#[verifier::external_body]
pub(crate) fn string_of(v: &Vec<char>) -> (r: String)
    ensures
        r@ == v@,
{
    v.iter().collect()
}

/// Relies on `str::to_lowercase`: the result depends on the characters alone,
/// and an empty text stays empty.
#[verifier::external_body]
pub(crate) fn lowercase(s: &str) -> (r: String)
    ensures
        r@ == lower_of(s@),
        s@.len() == 0 ==> r@.len() == 0,
{
    s.to_lowercase()
}

/// Tests whether `ch` is a CJK unified ideograph.
pub fn is_cjk(ch: char) -> (r: bool)
    ensures
        r == cjk(ch),
{
    '\u{4E00}' <= ch && ch <= '\u{9FFF}'
}

fn is_ascii_alnum(c: char) -> (r: bool)
    ensures
        r == ascii_alnum(c),
{
    ('0' <= c && c <= '9') || ('a' <= c && c <= 'z') || ('A' <= c && c <= 'Z')
}

fn is_white(c: char) -> (r: bool)
    ensures
        r == white(c),
{
    ('\u{9}' <= c && c <= '\u{D}') || c == ' ' || c == '\u{85}' || c == '\u{A0}'
        || c == '\u{1680}' || ('\u{2000}' <= c && c <= '\u{200A}') || c == '\u{2028}'
        || c == '\u{2029}' || c == '\u{202F}' || c == '\u{205F}' || c == '\u{3000}'
}

proof fn lemma_trim_start_skip(s: Seq<char>, i: int)
    requires
        0 <= i < s.len(),
        white(s[i]),
    ensures
        trim_start(s.subrange(i, s.len() as int)) == trim_start(s.subrange(i + 1, s.len() as int)),
{
    assert(s.subrange(i, s.len() as int).drop_first() =~= s.subrange(i + 1, s.len() as int));
}

proof fn lemma_trim_end_skip(s: Seq<char>, j: int)
    requires
        0 < j <= s.len(),
        white(s[j - 1]),
    ensures
        trim_end(s.subrange(0, j)) == trim_end(s.subrange(0, j - 1)),
{
    assert(s.subrange(0, j).drop_last() =~= s.subrange(0, j - 1));
}

/// `s` with white space removed at both ends.
pub fn trim_chars(u: &Vec<char>) -> (r: Vec<char>)
    ensures
        r@ == trim_end(trim_start(u@)),
{
    let m = u.len();
    let mut a: usize = 0;
    assert(u@.subrange(0, m as int) =~= u@);
    while a < m && is_white(u[a])
        invariant
            m == u@.len(),
            a <= m,
            trim_start(u@.subrange(a as int, m as int)) == trim_start(u@),
        decreases m - a,
    {
        proof {
            lemma_trim_start_skip(u@, a as int);
        }
        a = a + 1;
    }
    let ghost mid = u@.subrange(a as int, m as int);
    assert(trim_start(mid) == mid);
    let mut b: usize = m;
    assert(mid.subrange(0, (b - a) as int) =~= mid);
    while b > a && is_white(u[b - 1])
        invariant
            m == u@.len(),
            a <= b <= m,
            mid == u@.subrange(a as int, m as int),
            trim_end(mid.subrange(0, (b - a) as int)) == trim_end(mid),
        decreases b,
    {
        proof {
            lemma_trim_end_skip(mid, (b - a) as int);
        }
        b = b - 1;
    }
    let ghost fin = mid.subrange(0, (b - a) as int);
    assert(trim_end(fin) == fin);
    let mut r: Vec<char> = Vec::new();
    let mut k: usize = a;
    while k < b
        invariant
            a <= k <= b <= m,
            m == u@.len(),
            r@ == u@.subrange(a as int, k as int),
        decreases b - k,
    {
        r.push(u[k]);
        k = k + 1;
        assert(r@ =~= u@.subrange(a as int, k as int));
    }
    assert(r@ =~= fin);
    r
}

pub(crate) fn chars_eq(a: &Vec<char>, b: &Vec<char>) -> (r: bool)
    ensures
        r == (a@ == b@),
{
    if a.len() != b.len() {
        return false;
    }
    let mut i: usize = 0;
    while i < a.len()
        invariant
            a@.len() == b@.len(),
            i <= a@.len(),
            forall|k: int| 0 <= k < i ==> a@[k] == b@[k],
        decreases a@.len() - i,
    {
        if a[i] != b[i] {
            return false;
        }
        i = i + 1;
    }
    assert(a@ =~= b@);
    true
}

pub(crate) fn cat(a: &Vec<char>, b: &Vec<char>) -> (r: Vec<char>)
    ensures
        r@ == a@ + b@,
{
    let mut out = a.clone();
    let mut i: usize = 0;
    while i < b.len()
        invariant
            i <= b@.len(),
            out@ == a@ + b@.take(i as int),
        decreases b@.len() - i,
    {
        out.push(b[i]);
        i = i + 1;
        assert(out@ =~= a@ + b@.take(i as int));
    }
    assert(b@.take(i as int) =~= b@);
    out
}

/// Whether `s` begins with `p`.
pub fn starts_with_chars(s: &Vec<char>, p: &Vec<char>) -> (r: bool)
    ensures
        r == starts_with(s@, p@),
{
    if p.len() > s.len() {
        return false;
    }
    let mut i: usize = 0;
    while i < p.len()
        invariant
            p@.len() <= s@.len(),
            i <= p@.len(),
            forall|k: int| 0 <= k < i ==> s@[k] == p@[k],
        decreases p@.len() - i,
    {
        if s[i] != p[i] {
            assert(s@.take(p@.len() as int)[i as int] != p@[i as int]);
            return false;
        }
        i = i + 1;
    }
    assert(s@.take(p@.len() as int) =~= p@);
    true
}

/// Unifies line endings and trims white space, on characters.
pub fn normalize_chars(s: &Vec<char>) -> (r: Vec<char>)
    ensures
        r@ == normalized(s@),
{
    let n = s.len();
    let mut u: Vec<char> = Vec::new();
    let mut i: usize = 0;
    assert(s@.subrange(0, n as int) =~= s@);
    assert(u@ + crlf_to_lf(s@) =~= crlf_to_lf(s@));
    while i < n
        invariant
            n == s@.len(),
            i <= n,
            u@ + crlf_to_lf(s@.subrange(i as int, n as int)) == crlf_to_lf(s@),
        decreases n - i,
    {
        let rest = Ghost(s@.subrange(i as int, n as int));
        if i + 1 < n && s[i] == '\r' && s[i + 1] == '\n' {
            assert(rest@.subrange(2, rest@.len() as int) =~= s@.subrange(i + 2, n as int));
            u.push('\n');
            i = i + 2;
        } else {
            assert(rest@.drop_first() =~= s@.subrange(i + 1, n as int));
            u.push(s[i]);
            i = i + 1;
        }
        assert(u@ + crlf_to_lf(s@.subrange(i as int, n as int)) =~= crlf_to_lf(s@));
    }
    assert(s@.subrange(n as int, n as int) =~= Seq::<char>::empty());
    assert(u@ =~= crlf_to_lf(s@));
    trim_chars(&u)
}

/// Unifies line endings to "\n" and trims white space at both ends.
pub fn normalize_text(text: &str) -> (r: String)
    ensures
        r@ == normalized(text@),
{
    let v = chars_of(text);
    let n = normalize_chars(&v);
    string_of(&n)
}

/// The first `max` characters of `t`, followed by an ellipsis where `t` was longer.
pub fn slice_chars(t: &Vec<char>, max_chars: usize) -> (r: Vec<char>)
    ensures
        r@ == sliced(t@, max_chars as nat),
{
    if t.len() <= max_chars {
        return t.clone();
    }
    let mut out: Vec<char> = Vec::new();
    let mut i: usize = 0;
    while i < max_chars
        invariant
            i <= max_chars < t@.len(),
            out@ == t@.take(i as int),
        decreases max_chars - i,
    {
        out.push(t[i]);
        i = i + 1;
        assert(out@ =~= t@.take(i as int));
    }
    out.push('…');
    out
}

/// The normalized text, cut to `max_chars` characters with an ellipsis
/// marking a cut.
pub fn safe_slice(text: &str, max_chars: usize) -> (r: String)
    ensures
        r@ == sliced(normalized(text@), max_chars as nat),
{
    let v = chars_of(text);
    let t = normalize_chars(&v);
    let s = slice_chars(&t, max_chars);
    string_of(&s)
}

/// The first `n` characters of `t` (all of them where it is shorter).
pub fn take_chars(t: &Vec<char>, n: usize) -> (r: Vec<char>)
    ensures
        r@ == prefix(t@, n as nat),
{
    let mut out: Vec<char> = Vec::new();
    let mut i: usize = 0;
    while i < n && i < t.len()
        invariant
            i <= t@.len(),
            i <= n,
            out@ == t@.take(i as int),
        decreases t@.len() - i,
    {
        out.push(t[i]);
        i = i + 1;
        assert(out@ =~= t@.take(i as int));
    }
    proof {
        if t@.len() <= n {
            assert(t@.take(t@.len() as int) =~= t@);
        }
    }
    out
}

proof fn lemma_tokens_step(s: Seq<char>, i: int)
    requires
        0 <= i < s.len(),
    ensures
        s.subrange(i, s.len() as int).drop_first() == s.subrange(i + 1, s.len() as int),
        s.subrange(i, s.len() as int)[0] == s[i],
{
    assert(s.subrange(i, s.len() as int).drop_first() =~= s.subrange(i + 1, s.len() as int));
}

/// Splits an already lower-cased text into tokens: maximal runs of ASCII
/// letters and digits, and each CJK ideograph alone.
pub fn tokenize_chars(t: &Vec<char>) -> (r: Vec<Vec<char>>)
    ensures
        r@.map_values(|w: Vec<char>| w@) == tokens(t@),
{
    let n = t.len();
    let mut out: Vec<Vec<char>> = Vec::new();
    let mut cur: Vec<char> = Vec::new();
    let mut i: usize = 0;
    assert(t@.subrange(0, n as int) =~= t@);
    assert(out@.map_values(|w: Vec<char>| w@) =~= Seq::<Seq<char>>::empty());
    assert(out@.map_values(|w: Vec<char>| w@) + tokens(t@) =~= tokens(t@));
    while i < n
        invariant
            n == t@.len(),
            i <= n,
            out@.map_values(|w: Vec<char>| w@) + tokens_from(t@.subrange(i as int, n as int), cur@)
                == tokens(t@),
        decreases n - i,
    {
        let c = t[i];
        proof {
            lemma_tokens_step(t@, i as int);
        }
        let ghost old_out = out@.map_values(|w: Vec<char>| w@);
        let ghost old_cur = cur@;
        let ghost rest = t@.subrange(i as int, n as int);
        proof {
            if ascii_alnum(c) {
                assert(tokens_from(rest, old_cur) == tokens_from(rest.drop_first(), old_cur.push(c)));
            } else if cjk(c) {
                assert(tokens_from(rest, old_cur) == flush(old_cur) + seq![seq![c]] + tokens_from(
                    rest.drop_first(),
                    seq![],
                ));
            } else {
                assert(tokens_from(rest, old_cur) == flush(old_cur) + tokens_from(
                    rest.drop_first(),
                    seq![],
                ));
            }
        }
        if is_ascii_alnum(c) {
            cur.push(c);
        } else {
            if cur.len() > 0 {
                out.push(cur);
                cur = Vec::new();
            }
            if is_cjk(c) {
                let mut one: Vec<char> = Vec::new();
                one.push(c);
                out.push(one);
            }
            proof {
                let nw = out@.map_values(|w: Vec<char>| w@);
                assert(cur@ =~= Seq::<char>::empty());
                if cjk(c) {
                    assert(nw =~= old_out + flush(old_cur) + seq![seq![c]]);
                    assert(nw + tokens_from(rest.drop_first(), cur@) =~= old_out + tokens_from(
                        rest,
                        old_cur,
                    ));
                } else {
                    assert(nw =~= old_out + flush(old_cur));
                    assert(nw + tokens_from(rest.drop_first(), cur@) =~= old_out + tokens_from(
                        rest,
                        old_cur,
                    ));
                }
            }
        }
        i = i + 1;
        proof {
            let nw = out@.map_values(|w: Vec<char>| w@);
            assert(nw + tokens_from(t@.subrange(i as int, n as int), cur@) =~= tokens(t@));
        }
    }
    if cur.len() > 0 {
        out.push(cur);
    }
    proof {
        assert(t@.subrange(n as int, n as int) =~= Seq::<char>::empty());
        assert(out@.map_values(|w: Vec<char>| w@) =~= tokens(t@));
    }
    out
}

/// Tokens of a text that is already lower-cased.
pub fn tokenize_lowered(t: &str) -> (r: Vec<String>)
    ensures
        r@.map_values(|w: String| w@) == tokens(t@),
{
    let v = chars_of(t);
    let ws = tokenize_chars(&v);
    let mut out: Vec<String> = Vec::new();
    let mut i: usize = 0;
    while i < ws.len()
        invariant
            i <= ws@.len(),
            ws@.map_values(|w: Vec<char>| w@) == tokens(v@),
            v@ == t@,
            out@.map_values(|w: String| w@) == ws@.map_values(|w: Vec<char>| w@).take(i as int),
        decreases ws@.len() - i,
    {
        let s = string_of(&ws[i]);
        let ghost before = out@;
        out.push(s);
        proof {
            assert(ws@.map_values(|w: Vec<char>| w@)[i as int] == ws@[i as int]@);
            assert(out@.map_values(|w: String| w@) =~= before.map_values(|w: String| w@).push(
                ws@[i as int]@,
            ));
        }
        i = i + 1;
        assert(out@.map_values(|w: String| w@) =~= ws@.map_values(|w: Vec<char>| w@).take(i as int));
    }
    assert(ws@.map_values(|w: Vec<char>| w@).take(i as int) =~= ws@.map_values(|w: Vec<char>| w@));
    out
}

/// Tokens of a text: normalized, lower-cased, then split into words of ASCII
/// letters and digits and single CJK ideographs.
pub fn tokenize(text: &str) -> (r: Vec<String>)
    ensures
        r@.map_values(|w: String| w@) == tokens(lower_of(normalized(text@))),
{
    let t = normalize_text(text);
    let low = lowercase(t.as_str());
    tokenize_lowered(low.as_str())
}

} // verus!
