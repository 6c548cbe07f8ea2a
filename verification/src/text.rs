//! Text helpers: decimal rendering of integers, Unicode whitespace trimming,
//! splitting on a separator and case folding.
use vstd::prelude::*;

verus! {

// ---------------------------------------------------------------------------
// Decimal rendering
// ---------------------------------------------------------------------------

/// The character of the decimal digit `d` (for `0 <= d < 10`).
pub open spec fn digit_char(d: int) -> char {
    (48 + d) as char
}

/// The decimal text of `n`, without sign or leading zeros (`0` is `"0"`).
pub open spec fn decimal(n: nat) -> Seq<char>
    decreases n,
{
    if n < 10 {
        seq![digit_char(n as int)]
    } else {
        decimal(n / 10).push(digit_char((n % 10) as int))
    }
}

/// The one-character text of the digit `d`.
pub(crate) fn digit_text(d: u64) -> (s: String)
    requires
        d < 10,
    ensures
        s@ == seq![digit_char(d as int)],
{
    let table = "0123456789";
    proof {
        reveal_strlit("0123456789");
    }
    let piece = table.substring_char(d as usize, (d + 1) as usize);
    assert(piece@ =~= seq![digit_char(d as int)]);
    String::from_str(piece)
}

/// Renders `n` in decimal, as `n.to_string()` does.
pub fn u64_to_decimal(n: u64) -> (s: String)
    ensures
        s@ == decimal(n as nat),
    decreases n,
{
    if n < 10 {
        digit_text(n)
    } else {
        let mut s = u64_to_decimal(n / 10);
        let last = digit_text(n % 10);
        s.append(last.as_str());
        s
    }
}

// ---------------------------------------------------------------------------
// Characters of a string
// ---------------------------------------------------------------------------

/// The characters of `s`, in order.
pub fn chars_of(s: &str) -> (v: Vec<char>)
    ensures
        v@ == s@,
{
    let mut v: Vec<char> = Vec::new();
    for c in it: s.chars()
        invariant
            v@ == it.seq().take(it.index() as int),
            it.seq() == s@,
    {
        v.push(c);
    }
    v
}

// ---------------------------------------------------------------------------
// Whitespace and trimming
// ---------------------------------------------------------------------------

/// The characters with the Unicode `White_Space` property, which is what
/// `char::is_whitespace` and `str::trim` test for.
pub open spec fn is_white_space(c: char) -> bool {
    let u = c as u32;
    ||| 0x09 <= u <= 0x0d
    ||| u == 0x20
    ||| u == 0x85
    ||| u == 0xa0
    ||| u == 0x1680
    ||| 0x2000 <= u <= 0x200a
    ||| u == 0x2028
    ||| u == 0x2029
    ||| u == 0x202f
    ||| u == 0x205f
    ||| u == 0x3000
}

/// Tests `is_white_space` on a character.
pub fn char_is_white_space(c: char) -> (b: bool)
    ensures
        b == is_white_space(c),
{
    let u = c as u32;
    (0x09 <= u && u <= 0x0d) || u == 0x20 || u == 0x85 || u == 0xa0 || u == 0x1680 || (0x2000
        <= u && u <= 0x200a) || u == 0x2028 || u == 0x2029 || u == 0x202f || u == 0x205f || u
        == 0x3000
}

/// `s` without its leading whitespace.
pub open spec fn trim_start(s: Seq<char>) -> Seq<char>
    decreases s.len(),
{
    if s.len() > 0 && is_white_space(s[0]) {
        trim_start(s.drop_first())
    } else {
        s
    }
}

/// `s` without its trailing whitespace.
pub open spec fn trim_end(s: Seq<char>) -> Seq<char>
    decreases s.len(),
{
    if s.len() > 0 && is_white_space(s.last()) {
        trim_end(s.drop_last())
    } else {
        s
    }
}

/// `s` without leading and trailing whitespace, as `str::trim` gives it.
pub open spec fn trim(s: Seq<char>) -> Seq<char> {
    trim_end(trim_start(s))
}

/// What trimming leaves neither starts nor ends with whitespace, and is a
/// contiguous piece of the input.
pub proof fn lemma_trim_shape(s: Seq<char>)
    ensures
        trim(s).len() > 0 ==> !is_white_space(trim(s)[0]) && !is_white_space(trim(s).last()),
        exists|lo: int, hi: int| 0 <= lo <= hi <= s.len() && trim(s) == s.subrange(lo, hi),
{
    lemma_trim_start_shape(s);
    let t = trim_start(s);
    lemma_trim_end_shape(t);
    let lo = choose|lo: int| 0 <= lo <= s.len() && t == s.subrange(lo, s.len() as int);
    let hi = choose|hi: int| 0 <= hi <= t.len() && trim_end(t) == t.subrange(0, hi);
    assert(trim(s) =~= s.subrange(lo, lo + hi));
}

proof fn lemma_trim_start_shape(s: Seq<char>)
    ensures
        trim_start(s).len() > 0 ==> !is_white_space(trim_start(s)[0]),
        exists|lo: int| 0 <= lo <= s.len() && trim_start(s) == s.subrange(lo, s.len() as int),
    decreases s.len(),
{
    if s.len() > 0 && is_white_space(s[0]) {
        lemma_trim_start_shape(s.drop_first());
        let lo = choose|lo: int|
            0 <= lo <= s.drop_first().len() && trim_start(s.drop_first()) == s.drop_first().subrange(
                lo,
                s.drop_first().len() as int,
            );
        assert(trim_start(s) =~= s.subrange(lo + 1, s.len() as int));
    } else {
        assert(trim_start(s) =~= s.subrange(0, s.len() as int));
    }
}

proof fn lemma_trim_end_shape(s: Seq<char>)
    ensures
        trim_end(s).len() > 0 ==> !is_white_space(trim_end(s).last()) && trim_end(s)[0] == s[0],
        exists|hi: int| 0 <= hi <= s.len() && trim_end(s) == s.subrange(0, hi),
    decreases s.len(),
{
    if s.len() > 0 && is_white_space(s.last()) {
        lemma_trim_end_shape(s.drop_last());
        let hi = choose|hi: int|
            0 <= hi <= s.drop_last().len() && trim_end(s.drop_last()) == s.drop_last().subrange(
                0,
                hi,
            );
        assert(trim_end(s) =~= s.subrange(0, hi));
    } else {
        assert(trim_end(s) =~= s.subrange(0, s.len() as int));
    }
}

/// Removes leading and trailing whitespace, as `str::trim` does.
pub fn trim_text(s: &str) -> (r: String)
    ensures
        r@ == trim(s@),
{
    let chars = chars_of(s);
    let n = chars.len();
    let mut lo: usize = 0;
    assert(s@.subrange(0, n as int) =~= s@);
    while lo < n && char_is_white_space(chars[lo])
        invariant
            chars@ == s@,
            n == s@.len(),
            lo <= n,
            trim_start(s@) == trim_start(s@.subrange(lo as int, n as int)),
        decreases n - lo,
    {
        assert(s@.subrange(lo as int, n as int).drop_first() =~= s@.subrange(
            lo + 1,
            n as int,
        ));
        lo = lo + 1;
    }
    let mut hi: usize = n;
    assert(trim_start(s@) == s@.subrange(lo as int, n as int));
    while hi > lo && char_is_white_space(chars[hi - 1])
        invariant
            chars@ == s@,
            n == s@.len(),
            lo <= hi <= n,
            trim(s@) == trim_end(s@.subrange(lo as int, hi as int)),
        decreases hi - lo,
    {
        assert(s@.subrange(lo as int, hi as int).drop_last() =~= s@.subrange(
            lo as int,
            hi - 1,
        ));
        hi = hi - 1;
    }
    let piece = s.substring_char(lo, hi);
    String::from_str(piece)
}

// ---------------------------------------------------------------------------
// Splitting
// ---------------------------------------------------------------------------

/// The pieces of `s` between occurrences of `sep`, as `str::split` yields
/// them: `k` separators give `k + 1` pieces, some of them possibly empty.
pub open spec fn split_on(s: Seq<char>, sep: char) -> Seq<Seq<char>>
    decreases s.len(),
{
    if s.len() == 0 {
        seq![Seq::<char>::empty()]
    } else {
        let rest = split_on(s.drop_last(), sep);
        if s.last() == sep {
            rest.push(Seq::<char>::empty())
        } else {
            rest.update(rest.len() - 1, rest.last().push(s.last()))
        }
    }
}

/// `split_on` never yields an empty list of pieces.
pub proof fn lemma_split_on_nonempty(s: Seq<char>, sep: char)
    ensures
        split_on(s, sep).len() >= 1,
    decreases s.len(),
{
    if s.len() > 0 {
        lemma_split_on_nonempty(s.drop_last(), sep);
    }
}

/// No piece that `split_on` yields holds the separator.
pub proof fn lemma_split_on_pieces_lack_sep(s: Seq<char>, sep: char)
    ensures
        forall|i: int, j: int|
            0 <= i < split_on(s, sep).len() && 0 <= j < split_on(s, sep)[i].len()
                ==> #[trigger] split_on(s, sep)[i][j] != sep,
    decreases s.len(),
{
    if s.len() > 0 {
        lemma_split_on_pieces_lack_sep(s.drop_last(), sep);
        lemma_split_on_nonempty(s.drop_last(), sep);
        let rest = split_on(s.drop_last(), sep);
        if s.last() != sep {
            let r = split_on(s, sep);
            assert forall|i: int, j: int| 0 <= i < r.len() && 0 <= j < r[i].len() implies #[trigger] r[i][j]
                != sep by {
                if i == rest.len() - 1 {
                    if j < rest.last().len() {
                        assert(r[i][j] == rest[i][j]);
                    }
                } else {
                    assert(r[i] == rest[i]);
                }
            }
        }
    }
}

/// Splits `s` at every `sep`, as `s.split(sep)` does.
pub fn split_text(s: &str, sep: char) -> (pieces: Vec<String>)
    ensures
        pieces@.map_values(|p: String| p@) == split_on(s@, sep),
{
    let chars = chars_of(s);
    let n = chars.len();
    let mut pieces: Vec<String> = Vec::new();
    let mut start: usize = 0;
    let mut i: usize = 0;
    assert(s@.take(0) =~= Seq::<char>::empty());
    assert(pieces@.map_values(|p: String| p@).push(s@.subrange(0, 0)) =~= split_on(
        s@.take(0),
        sep,
    ));
    while i < n
        invariant
            chars@ == s@,
            n == s@.len(),
            start <= i <= n,
            pieces@.map_values(|p: String| p@).push(s@.subrange(start as int, i as int))
                == split_on(s@.take(i as int), sep),
        decreases n - i,
    {
        let ghost before = split_on(s@.take(i as int), sep);
        let ghost done = pieces@.map_values(|p: String| p@);
        assert(s@.take(i + 1).drop_last() =~= s@.take(i as int));
        assert(s@.take(i + 1).last() == chars@[i as int]);
        if chars[i] == sep {
            let piece = String::from_str(s.substring_char(start, i));
            pieces.push(piece);
            assert(pieces@.map_values(|p: String| p@) =~= done.push(
                s@.subrange(start as int, i as int),
            ));
            i = i + 1;
            start = i;
            assert(s@.subrange(start as int, i as int) =~= Seq::<char>::empty());
            assert(pieces@.map_values(|p: String| p@).push(s@.subrange(start as int, i as int))
                =~= before.push(Seq::<char>::empty()));
        } else {
            let ghost cur = s@.subrange(start as int, i as int);
            i = i + 1;
            assert(s@.subrange(start as int, i as int) =~= cur.push(s@[i - 1]));
            assert(before =~= done.push(cur));
            assert(pieces@.map_values(|p: String| p@).push(s@.subrange(start as int, i as int))
                =~= before.update(before.len() - 1, before.last().push(s@[i - 1])));
        }
    }
    let last = String::from_str(s.substring_char(start, n));
    pieces.push(last);
    assert(s@.take(n as int) =~= s@);
    assert(pieces@.map_values(|p: String| p@) =~= split_on(s@, sep));
    pieces
}

// ---------------------------------------------------------------------------
// Case folding
// ---------------------------------------------------------------------------

/// What `str::to_lowercase` returns for the given characters: their Unicode
/// lowercase mapping (a character may map to more than one, and capital
/// sigma maps by its place in a word).
pub uninterp spec fn lowercase(s: Seq<char>) -> Seq<char>;

/// `s` with the ASCII capitals `A`..`Z` replaced by `a`..`z`.
pub open spec fn ascii_lower(s: Seq<char>) -> Seq<char> {
    s.map_values(
        |c: char|
            if 65 <= (c as u32) <= 90 {
                ((c as u32) + 32) as char
            } else {
                c
            },
    )
}

/// Whether every character of `s` is ASCII.
pub open spec fn all_ascii(s: Seq<char>) -> bool {
    forall|i: int| 0 <= i < s.len() ==> (#[trigger] s[i] as u32) < 128
}

/// Whether `c` is one of the ASCII capitals `A`..`Z`.
pub open spec fn is_ascii_capital(c: char) -> bool {
    65 <= (c as u32) <= 90
}

/// The ASCII lowercase form of `s` when all of its characters are ASCII:
/// each capital `A`..`Z` replaced by `a`..`z`, every other character kept
/// (see `ascii_lower`); `None` when it holds another character.
pub fn ascii_lowercase(s: &str) -> (r: Option<String>)
    ensures
        r is Some <==> all_ascii(s@),
        r matches Some(t) ==> t@ == ascii_lower(s@),
{
    let chars = chars_of(s);
    let letters = "abcdefghijklmnopqrstuvwxyz";
    proof {
        reveal_strlit("abcdefghijklmnopqrstuvwxyz");
    }
    assert(forall|k: int| 0 <= k < 26 ==> (#[trigger] letters@[k] as u32) == 97 + k);
    let n = chars.len();
    let mut out = String::new();
    let mut i: usize = 0;
    assert(ascii_lower(s@.take(0)) =~= out@);
    while i < n
        invariant
            chars@ == s@,
            n == s@.len(),
            letters@.len() == 26,
            forall|k: int| 0 <= k < 26 ==> (#[trigger] letters@[k] as u32) == 97 + k,
            i <= n,
            out@ == ascii_lower(s@.take(i as int)),
            forall|j: int| 0 <= j < i ==> (#[trigger] s@[j] as u32) < 128,
        decreases n - i,
    {
        let c = chars[i];
        let code = c as u32;
        if code >= 128 {
            return None;
        }
        let ghost before = out@;
        if 65 <= code && code <= 90 {
            let k: usize = (code - 65) as usize;
            out.append(letters.substring_char(k, k + 1));
            assert(out@ =~= before.push(letters@[k as int]));
            assert((letters@[k as int] as u32) == (c as u32) + 32);
            proof {
                lemma_char_of_code(letters@[k as int], (c as u32) + 32);
            }
            assert(ascii_lower(s@.take(i + 1))[i as int] == letters@[k as int]);
        } else {
            out.append(s.substring_char(i, i + 1));
            assert(out@ =~= before.push(c));
            assert(ascii_lower(s@.take(i + 1))[i as int] == c);
        }
        assert(s@.take(i + 1) =~= s@.take(i as int).push(c));
        assert(ascii_lower(s@.take(i + 1)) =~= ascii_lower(s@.take(i as int)).push(
            ascii_lower(s@.take(i + 1))[i as int],
        ));
        i = i + 1;
    }
    assert(s@.take(n as int) =~= s@);
    Some(out)
}

/// A character is the character of its code.
proof fn lemma_char_of_code(c: char, code: int)
    requires
        (c as u32) == code,
    ensures
        code as char == c,
{
}

/// Lowering ASCII capitals forgets their case: two texts that differ only
/// by capitals against the same letters in lowercase lower to one text, and
/// a text without capitals is its own lower form.
pub proof fn lemma_ascii_lower_folds_case(a: Seq<char>, b: Seq<char>)
    requires
        a.len() == b.len(),
        forall|i: int|
            0 <= i < a.len() ==> a[i] == b[i] || (is_ascii_capital(a[i]) && (b[i] as u32) == (
            a[i] as u32) + 32) || (is_ascii_capital(b[i]) && (a[i] as u32) == (b[i] as u32) + 32),
    ensures
        ascii_lower(a) == ascii_lower(b),
        (forall|i: int| 0 <= i < a.len() ==> !is_ascii_capital(#[trigger] a[i])) ==> ascii_lower(a)
            == a,
{
    assert forall|i: int| 0 <= i < a.len() implies ascii_lower(a)[i] == ascii_lower(b)[i] by {
        if a[i] != b[i] {
            if is_ascii_capital(a[i]) {
                lemma_char_of_code(b[i], (a[i] as u32) + 32);
                assert(ascii_lower(a)[i] == b[i]);
                assert(ascii_lower(b)[i] == b[i]);
            } else {
                lemma_char_of_code(a[i], (b[i] as u32) + 32);
                assert(ascii_lower(b)[i] == a[i]);
                assert(ascii_lower(a)[i] == a[i]);
            }
        }
    }
    assert(ascii_lower(a) =~= ascii_lower(b));
    if forall|i: int| 0 <= i < a.len() ==> !is_ascii_capital(#[trigger] a[i]) {
        assert(ascii_lower(a) =~= a);
    }
}

/// Calls `str::to_lowercase`. Its result is named `lowercase` of the input's
/// characters; on input that is all ASCII, the Unicode lowercase mapping
/// replaces each capital `A`..`Z` by `a`..`z` and keeps every other character.
#[verifier::external_body]
pub(crate) fn to_lowercase(s: &str) -> (r: String)
    ensures
        r@ == lowercase(s@),
        all_ascii(s@) ==> r@ == ascii_lower(s@),
{
    s.to_lowercase()
}

} // verus!
