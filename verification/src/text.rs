//! Character-level helpers: searching, splitting and building text.
use vstd::prelude::*;

verus! {

/// Index of the first element of `s` that satisfies `p`, if any.
pub open spec fn first_where<T>(s: Seq<T>, p: spec_fn(T) -> bool) -> Option<int>
    decreases s.len(),
{
    if s.len() == 0 {
        None
    } else if p(s[0]) {
        Some(0)
    } else {
        match first_where(s.drop_first(), p) {
            Some(i) => Some(i + 1),
            None => None,
        }
    }
}

/// A linear scan that has rejected the first `i` elements and either stops at
/// a match at `i` or reaches the end computes `first_where`.
pub proof fn lemma_first_where_scan<T>(s: Seq<T>, p: spec_fn(T) -> bool, i: int)
    requires
        0 <= i <= s.len(),
        forall|j: int| 0 <= j < i ==> !p(#[trigger] s[j]),
    ensures
        i < s.len() && p(s[i]) ==> first_where(s, p) == Some(i),
        i == s.len() ==> first_where(s, p) is None,
    decreases i,
{
    if i > 0 {
        assert forall|j: int| 0 <= j < i - 1 implies !p(#[trigger] s.drop_first()[j]) by {
            assert(s.drop_first()[j] == s[j + 1]);
        }
        lemma_first_where_scan(s.drop_first(), p, i - 1);
    }
}

/// What `first_where` finds is a match, and nothing before it matches.
pub proof fn lemma_first_where_found<T>(s: Seq<T>, p: spec_fn(T) -> bool)
    ensures
        first_where(s, p) matches Some(i) ==> {
            &&& 0 <= i < s.len()
            &&& p(s[i])
            &&& forall|j: int| 0 <= j < i ==> !p(#[trigger] s[j])
        },
        first_where(s, p) is None ==> forall|j: int| 0 <= j < s.len() ==> !p(#[trigger] s[j]),
    decreases s.len(),
{
    if s.len() > 0 && !p(s[0]) {
        let t = s.drop_first();
        lemma_first_where_found(t, p);
        match first_where(t, p) {
            Some(i) => {
                assert forall|j: int| 0 <= j < i + 1 implies !p(#[trigger] s[j]) by {
                    if j > 0 {
                        assert(s[j] == t[j - 1]);
                    }
                }
                assert(s[i + 1] == t[i]);
            },
            None => {
                assert forall|j: int| 0 <= j < s.len() implies !p(#[trigger] s[j]) by {
                    if j > 0 {
                        assert(s[j] == t[j - 1]);
                    }
                }
            },
        }
    }
}

/// `pat` occurs in `s` starting at position `i`.
pub open spec fn occurs_at(s: Seq<char>, pat: Seq<char>, i: int) -> bool {
    &&& 0 <= i
    &&& i + pat.len() <= s.len()
    &&& s.subrange(i, i + pat.len()) == pat
}

/// First position at or after `p` where `pat` occurs in `s`.
pub open spec fn find_from(s: Seq<char>, pat: Seq<char>, p: int) -> Option<int>
    decreases s.len() - p,
{
    if p < 0 || p + pat.len() > s.len() {
        None
    } else if occurs_at(s, pat, p) {
        Some(p)
    } else if p < s.len() {
        find_from(s, pat, p + 1)
    } else {
        None
    }
}

/// `s` contains `pat` (as `str::contains` with a string pattern).
pub open spec fn contains(s: Seq<char>, pat: Seq<char>) -> bool {
    find_from(s, pat, 0) is Some
}

/// What `find_from` returns is an occurrence at or after `p`, the first one.
pub proof fn lemma_find_from(s: Seq<char>, pat: Seq<char>, p: int)
    requires
        0 <= p,
    ensures
        find_from(s, pat, p) matches Some(i) ==> p <= i && occurs_at(s, pat, i) && forall|j: int|
            p <= j < i ==> !occurs_at(s, pat, j),
        find_from(s, pat, p) is None ==> forall|j: int| p <= j ==> !occurs_at(s, pat, j),
    decreases s.len() - p,
{
    if p + pat.len() > s.len() {
    } else if occurs_at(s, pat, p) {
    } else if p < s.len() {
        lemma_find_from(s, pat, p + 1);
    } else {
        assert(pat.len() == 0);
        assert(s.subrange(p, p) =~= pat);
    }
}

/// The pieces that `s.split(sep)` yields from position `p` on, up to (not
/// including) the first empty piece.
pub open spec fn pieces_from(s: Seq<char>, sep: Seq<char>, p: int) -> Seq<Seq<char>>
    decreases s.len() - p,
{
    match find_from(s, sep, p) {
        None => if 0 <= p < s.len() {
            seq![s.subrange(p, s.len() as int)]
        } else {
            seq![]
        },
        Some(i) => if 0 <= p < i && i + sep.len() <= s.len() {
            seq![s.subrange(p, i)] + pieces_from(s, sep, i + sep.len())
        } else {
            seq![]
        },
    }
}

/// The non-empty leading pieces of `s` split at every `sep`:
/// `s.split(sep).take_while(|piece| !piece.is_empty())`.
pub open spec fn pieces(s: Seq<char>, sep: Seq<char>) -> Seq<Seq<char>> {
    pieces_from(s, sep, 0)
}

/// An occurrence inside `s[p..q]` is an occurrence in `s`.
pub proof fn lemma_occurs_in_subrange(s: Seq<char>, pat: Seq<char>, p: int, q: int, j: int)
    requires
        0 <= p <= q <= s.len(),
        occurs_at(s.subrange(p, q), pat, j),
    ensures
        occurs_at(s, pat, p + j),
        p + j + pat.len() <= q,
{
    assert(s.subrange(p, q).subrange(j, j + pat.len()) =~= s.subrange(p + j, p + j + pat.len()));
}

/// The pieces from position `p` on are non-empty and hold no separator.
pub proof fn lemma_pieces_from(s: Seq<char>, sep: Seq<char>, p: int)
    requires
        0 <= p,
    ensures
        forall|k: int|
            0 <= k < pieces_from(s, sep, p).len() ==> (#[trigger] pieces_from(s, sep, p)[k]).len()
                > 0 && !contains(pieces_from(s, sep, p)[k], sep),
    decreases s.len() - p,
{
    lemma_find_from(s, sep, p);
    match find_from(s, sep, p) {
        None => {
            if 0 <= p < s.len() {
                let piece = s.subrange(p, s.len() as int);
                lemma_find_from(piece, sep, 0);
                if contains(piece, sep) {
                    let j = find_from(piece, sep, 0)->0;
                    lemma_occurs_in_subrange(s, sep, p, s.len() as int, j);
                }
                assert(!contains(piece, sep));
                assert(pieces_from(s, sep, p) == seq![piece]);
                assert(pieces_from(s, sep, p)[0] == piece);
            }
        },
        Some(i) => {
            if 0 <= p < i && i + sep.len() <= s.len() {
                if sep.len() == 0 {
                    assert(s.subrange(p, p) =~= sep);
                    assert(occurs_at(s, sep, p));
                }
                let piece = s.subrange(p, i);
                lemma_find_from(piece, sep, 0);
                if contains(piece, sep) {
                    let j = find_from(piece, sep, 0)->0;
                    lemma_occurs_in_subrange(s, sep, p, i, j);
                }
                assert(!contains(piece, sep));
                lemma_pieces_from(s, sep, i + sep.len());
                let rest = pieces_from(s, sep, i + sep.len());
                assert(pieces_from(s, sep, p) == seq![piece] + rest);
                assert(pieces_from(s, sep, p)[0] == piece);
                assert forall|k: int| 1 <= k < 1 + rest.len() implies pieces_from(s, sep, p)[k]
                    == rest[k - 1] by {}
            }
        },
    }
}

/// Every piece that splitting yields is non-empty and holds no separator.
pub proof fn law_pieces_are_nonempty_and_hold_no_separator(s: Seq<char>, sep: Seq<char>)
    ensures
        forall|k: int|
            0 <= k < pieces(s, sep).len() ==> (#[trigger] pieces(s, sep)[k]).len() > 0
                && !contains(pieces(s, sep)[k], sep),
{
    lemma_pieces_from(s, sep, 0);
}

/// Index of the first `=` in `t`.
pub open spec fn is_equals_sign() -> spec_fn(char) -> bool {
    |c: char| c == '='
}

/// `t.split_once('=')`.
pub open spec fn split_at_equals(t: Seq<char>) -> Option<(Seq<char>, Seq<char>)> {
    match first_where(t, is_equals_sign()) {
        Some(k) => Some((t.subrange(0, k), t.subrange(k + 1, t.len() as int))),
        None => None,
    }
}

/// Splitting at `=` cuts at the first `=`: the text is the part before, the
/// `=` and the part after, and the part before holds no `=`; a text without
/// `=` does not split.
pub proof fn law_split_at_equals_cuts_at_first_equals(t: Seq<char>)
    ensures
        split_at_equals(t) matches Some(p) ==> {
            &&& t == p.0 + seq!['='] + p.1
            &&& forall|j: int| 0 <= j < p.0.len() ==> p.0[j] != '='
        },
        split_at_equals(t) is None <==> forall|j: int| 0 <= j < t.len() ==> t[j] != '=',
{
    lemma_first_where_found(t, is_equals_sign());
    if let Some(k) = first_where(t, is_equals_sign()) {
        assert(t[k] == '=');
        assert(t =~= t.subrange(0, k) + seq!['='] + t.subrange(k + 1, t.len() as int));
        assert forall|j: int| 0 <= j < k implies t.subrange(0, k)[j] != '=' by {
            assert(!is_equals_sign()(t[j]));
        }
    } else {
        assert forall|j: int| 0 <= j < t.len() implies t[j] != '=' by {
            assert(!is_equals_sign()(t[j]));
        }
    }
}

/// Appends one character to a `String`.
///
/// Wraps `String::push`, which appends the character at the end of the string;
/// the contract states exactly that.
#[verifier::external_body]
pub(crate) fn push_char(s: &mut String, c: char)
    ensures
        final(s)@ == old(s)@.push(c),
{
    s.push(c);
}

/// The text that `char::escape_debug` yields for `c`; what it is for a
/// character outside ASCII depends on std's Unicode tables (whether the
/// character is printable, whether it extends a grapheme).
pub uninterp spec fn escape_debug_of(c: char) -> Seq<char>;

/// The escape text of `c`, as `char::escape_debug` yields it.
///
/// Wraps `char::escape_debug`, collecting the characters it yields. The
/// contract only names the result (a function of `c` alone); it states
/// nothing about which characters are escaped, which std decides from its
/// Unicode tables.
#[verifier::external_body]
fn escape_debug_text(c: char) -> (r: String)
    ensures
        r@ == escape_debug_of(c),
{
    c.escape_debug().collect()
}

/// The lower-case hexadecimal digit of `d`.
pub open spec fn hex_digit(d: int) -> char {
    "0123456789abcdef"@[d]
}

/// The lower-case hexadecimal digits of an ASCII code, without leading zeros.
pub open spec fn hex_of_ascii(n: int) -> Seq<char> {
    if n < 16 {
        seq![hex_digit(n)]
    } else {
        seq![hex_digit(n / 16), hex_digit(n % 16)]
    }
}

/// How the `Debug` output of a `str` writes the character `c` between the
/// quotes: the usual backslash escapes for NUL, tab, carriage return, line
/// feed, backslash and double quote; `\u{..}` for the other ASCII control
/// characters; other ASCII characters (the single quote included) as they
/// are; any other character as `char::escape_debug` yields it.
pub open spec fn debug_char(c: char) -> Seq<char> {
    if c == '\0' {
        "\\0"@
    } else if c == '\t' {
        "\\t"@
    } else if c == '\r' {
        "\\r"@
    } else if c == '\n' {
        "\\n"@
    } else if c == '\\' {
        "\\\\"@
    } else if c == '"' {
        "\\\""@
    } else if (c as u32) < 0x20 || (c as u32) == 0x7f {
        "\\u{"@ + hex_of_ascii(c as u32 as int) + "}"@
    } else if (c as u32) < 0x80 {
        seq![c]
    } else {
        escape_debug_of(c)
    }
}

/// The characters of `s` written as the `Debug` output of a `str` writes them
/// between its quotes.
pub open spec fn debug_escaped(s: Seq<char>) -> Seq<char>
    decreases s.len(),
{
    if s.len() == 0 {
        Seq::empty()
    } else {
        debug_escaped(s.drop_last()) + debug_char(s.last())
    }
}

/// Appends the hexadecimal digits of the ASCII code `n` to `r`.
fn append_hex(r: &mut String, n: u32)
    requires
        n < 0x80,
    ensures
        final(r)@ == old(r)@ + hex_of_ascii(n as int),
{
    let digits = "0123456789abcdef";
    proof {
        reveal_strlit("0123456789abcdef");
    }
    if n < 16 {
        push_char(r, digits.get_char(n as usize));
    } else {
        push_char(r, digits.get_char((n / 16) as usize));
        push_char(r, digits.get_char((n % 16) as usize));
    }
}

/// Appends `debug_char(c)` to `r`.
fn append_debug_char(r: &mut String, c: char)
    ensures
        final(r)@ == old(r)@ + debug_char(c),
{
    let code = c as u32;
    if c == '\0' {
        r.append("\\0");
    } else if c == '\t' {
        r.append("\\t");
    } else if c == '\r' {
        r.append("\\r");
    } else if c == '\n' {
        r.append("\\n");
    } else if c == '\\' {
        r.append("\\\\");
    } else if c == '"' {
        r.append("\\\"");
    } else if code < 0x20 || code == 0x7f {
        r.append("\\u{");
        append_hex(r, code);
        r.append("}");
    } else if code < 0x80 {
        push_char(r, c);
    } else {
        let e = escape_debug_text(c);
        r.append(e.as_str());
    }
}

/// The characters of `s` escaped as the `Debug` output of a `str` escapes
/// them (without the surrounding quotes).
pub fn debug_escape(s: &String) -> (r: String)
    ensures
        r@ == debug_escaped(s@),
{
    let v = chars_of(s.as_str());
    let mut r = String::new();
    let mut i: usize = 0;
    while i < v.len()
        invariant
            i <= v.len(),
            v@ == s@,
            r@ == debug_escaped(v@.take(i as int)),
        decreases v.len() - i,
    {
        assert(v@.take(i + 1).drop_last() =~= v@.take(i as int));
        let ghost before = r@;
        append_debug_char(&mut r, v[i]);
        i += 1;
        assert(r@ =~= debug_escaped(v@.take(i as int)));
    }
    assert(v@.take(i as int) =~= v@);
    r
}

/// The characters of `s`, in order.
pub fn chars_of(s: &str) -> (v: Vec<char>)
    ensures
        v@ == s@,
{
    let n = s.unicode_len();
    let mut v: Vec<char> = Vec::new();
    let mut i: usize = 0;
    while i < n
        invariant
            n == s@.len(),
            i <= n,
            v@ == s@.take(i as int),
        decreases n - i,
    {
        v.push(s.get_char(i));
        i += 1;
        assert(v@ =~= s@.take(i as int));
    }
    assert(v@ =~= s@);
    v
}

/// A `String` holding `v[from..to]`.
pub fn string_of(v: &Vec<char>, from: usize, to: usize) -> (r: String)
    requires
        from <= to <= v.len(),
    ensures
        r@ == v@.subrange(from as int, to as int),
{
    let mut r = String::new();
    let mut i = from;
    while i < to
        invariant
            from <= i <= to <= v.len(),
            r@ == v@.subrange(from as int, i as int),
        decreases to - i,
    {
        push_char(&mut r, v[i]);
        i += 1;
        assert(r@ =~= v@.subrange(from as int, i as int));
    }
    r
}

/// Whether `pat` occurs in `s` at position `i`.
pub fn matches_at(s: &Vec<char>, pat: &Vec<char>, i: usize) -> (r: bool)
    ensures
        r == occurs_at(s@, pat@, i as int),
{
    if i > s.len() || pat.len() > s.len() - i {
        return false;
    }
    let mut k: usize = 0;
    while k < pat.len()
        invariant
            i + pat.len() <= s.len(),
            k <= pat.len(),
            forall|j: int| 0 <= j < k ==> s@[i + j] == pat@[j],
        decreases pat.len() - k,
    {
        if s[i + k] != pat[k] {
            assert(s@.subrange(i as int, i + pat.len())[k as int] != pat@[k as int]);
            return false;
        }
        k += 1;
    }
    assert(s@.subrange(i as int, i + pat.len()) =~= pat@);
    true
}

/// First position at or after `p` where `pat` occurs in `s`.
pub fn find_at_or_after(s: &Vec<char>, pat: &Vec<char>, p: usize) -> (r: Option<usize>)
    ensures
        r matches Some(i) ==> find_from(s@, pat@, p as int) == Some(i as int),
        r is None ==> find_from(s@, pat@, p as int) is None,
{
    if pat.len() > s.len() || p > s.len() - pat.len() {
        return None;
    }
    let mut q = p;
    while q <= s.len() - pat.len()
        invariant
            pat.len() <= s.len(),
            p <= q,
            q <= s.len() - pat.len() + 1,
            find_from(s@, pat@, p as int) == find_from(s@, pat@, q as int),
        decreases s.len() - pat.len() + 1 - q,
    {
        if matches_at(s, pat, q) {
            return Some(q);
        }
        if q == s.len() {
            // only an empty pattern reaches the end, and it always matches
            assert(pat@.len() == 0);
            assert(s@.subrange(q as int, q as int) =~= pat@);
            assert(false);
        }
        q += 1;
    }
    None
}

/// Whether `pat` occurs in `s`.
pub fn contains_seq(s: &Vec<char>, pat: &Vec<char>) -> (r: bool)
    ensures
        r == contains(s@, pat@),
{
    find_at_or_after(s, pat, 0).is_some()
}

/// The non-empty leading pieces of `s` split at `sep`.
pub fn split_pieces(s: &Vec<char>, sep: &Vec<char>) -> (r: Vec<String>)
    ensures
        r.deep_view() == pieces(s@, sep@),
{
    let mut r: Vec<String> = Vec::new();
    let mut p: usize = 0;
    let ghost whole = pieces(s@, sep@);
    loop
        invariant
            p <= s.len(),
            whole == pieces(s@, sep@),
            r.deep_view() + pieces_from(s@, sep@, p as int) == whole,
        decreases s.len() - p,
    {
        let found = find_at_or_after(s, sep, p);
        proof {
            lemma_find_from(s@, sep@, p as int);
        }
        match found {
            None => {
                if p < s.len() {
                    let piece = string_of(s, p, s.len());
                    let ghost before = r.deep_view();
                    r.push(piece);
                    assert(r.deep_view() =~= before.push(piece@));
                    assert(r.deep_view() =~= before + pieces_from(s@, sep@, p as int));
                } else {
                    assert(r.deep_view() =~= r.deep_view() + pieces_from(s@, sep@, p as int));
                }
                return r;
            },
            Some(i) => {
                if p < i && sep.len() <= s.len() - i {
                    let piece = string_of(s, p, i);
                    let ghost before = r.deep_view();
                    let ghost old_p = p as int;
                    r.push(piece);
                    assert(r.deep_view() =~= before.push(piece@));
                    p = i + sep.len();
                    assert(pieces_from(s@, sep@, old_p) == seq![piece@] + pieces_from(s@, sep@, p as int));
                    assert(r.deep_view() + pieces_from(s@, sep@, p as int) =~= before + pieces_from(s@, sep@, old_p));
                } else {
                    assert(r.deep_view() =~= r.deep_view() + pieces_from(s@, sep@, p as int));
                    return r;
                }
            },
        }
    }
}

/// `t.split_once('=')` on the characters of `t`.
pub fn split_equals(t: &Vec<char>) -> (r: Option<(String, String)>)
    ensures
        r matches Some(pair) ==> split_at_equals(t@) == Some((pair.0@, pair.1@)),
        r is None ==> split_at_equals(t@) is None,
{
    let mut k: usize = 0;
    while k < t.len()
        invariant
            k <= t.len(),
            forall|j: int| 0 <= j < k ==> !is_equals_sign()(#[trigger] t@[j]),
        decreases t.len() - k,
    {
        if t[k] == '=' {
            proof {
                lemma_first_where_scan(t@, is_equals_sign(), k as int);
            }
            let before = string_of(t, 0, k);
            let after = string_of(t, k + 1, t.len());
            return Some((before, after));
        }
        k += 1;
    }
    proof {
        lemma_first_where_scan(t@, is_equals_sign(), k as int);
    }
    None
}

} // verus!
