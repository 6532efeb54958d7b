//! Text primitives over Unicode scalar sequences: white space, UTF-8 byte
//! lengths, trimming, splitting and joining.  Strings are modelled by their
//! view, a `Seq<char>`.
use vstd::prelude::*;
use vstd::utf8::*;

verus! {

broadcast use vstd::utf8::char_is_scalar;

// ---------------------------------------------------------------------------
// Character classes
// ---------------------------------------------------------------------------

/// Unicode `White_Space`: the characters that `char::is_whitespace` accepts.
pub open spec fn is_white_space(c: char) -> bool {
    let u = c as u32;
    ||| 0x09 <= u <= 0x0D
    ||| u == 0x20
    ||| u == 0x85
    ||| u == 0xA0
    ||| u == 0x1680
    ||| 0x2000 <= u <= 0x200A
    ||| u == 0x2028
    ||| u == 0x2029
    ||| u == 0x202F
    ||| u == 0x205F
    ||| u == 0x3000
}

/// Whether `c` is Unicode white space.
pub fn is_whitespace(c: char) -> (r: bool)
    ensures
        r == is_white_space(c),
{
    let u = c as u32;
    (0x09 <= u && u <= 0x0D) || u == 0x20 || u == 0x85 || u == 0xA0 || u == 0x1680 || (0x2000 <= u
        && u <= 0x200A) || u == 0x2028 || u == 0x2029 || u == 0x202F || u == 0x205F || u == 0x3000
}

/// ASCII punctuation: the characters that `char::is_ascii_punctuation` accepts.
pub open spec fn is_ascii_punct(c: char) -> bool {
    let u = c as u32;
    ||| 0x21 <= u <= 0x2F
    ||| 0x3A <= u <= 0x40
    ||| 0x5B <= u <= 0x60
    ||| 0x7B <= u <= 0x7E
}

/// Whether `c` is ASCII punctuation.
pub fn is_ascii_punctuation(c: char) -> (r: bool)
    ensures
        r == is_ascii_punct(c),
{
    let u = c as u32;
    (0x21 <= u && u <= 0x2F) || (0x3A <= u && u <= 0x40) || (0x5B <= u && u <= 0x60) || (0x7B <= u
        && u <= 0x7E)
}

// ---------------------------------------------------------------------------
// UTF-8 byte lengths
// ---------------------------------------------------------------------------

/// Number of bytes in the UTF-8 encoding of `c`.
pub open spec fn char_width(c: char) -> nat {
    let u = c as u32;
    if u < 0x80 {
        1
    } else if u < 0x800 {
        2
    } else if u < 0x10000 {
        3
    } else {
        4
    }
}

/// Number of bytes in the UTF-8 encoding of `s` (what `str::len` returns).
pub open spec fn byte_len(s: Seq<char>) -> nat
    decreases s.len(),
{
    if s.len() == 0 {
        0
    } else {
        byte_len(s.drop_last()) + char_width(s.last())
    }
}

pub proof fn lemma_byte_len_concat(a: Seq<char>, b: Seq<char>)
    ensures
        byte_len(a + b) == byte_len(a) + byte_len(b),
    decreases b.len(),
{
    if b.len() == 0 {
        assert(a + b =~= a);
    } else {
        lemma_byte_len_concat(a, b.drop_last());
        assert((a + b).drop_last() =~= a + b.drop_last());
    }
}

pub proof fn lemma_byte_len_subrange(s: Seq<char>, lo: int, hi: int)
    requires
        0 <= lo <= hi <= s.len(),
    ensures
        byte_len(s.subrange(lo, hi)) <= byte_len(s),
        byte_len(s) == byte_len(s.subrange(0, lo)) + byte_len(s.subrange(lo, hi)) + byte_len(
            s.subrange(hi, s.len() as int),
        ),
{
    lemma_byte_len_concat(s.subrange(0, lo), s.subrange(lo, hi));
    lemma_byte_len_concat(s.subrange(0, lo) + s.subrange(lo, hi), s.subrange(hi, s.len() as int));
    assert(s.subrange(0, lo) + s.subrange(lo, hi) + s.subrange(hi, s.len() as int) =~= s);
}

proof fn lemma_encode_scalar_width(c: char)
    ensures
        encode_scalar(c as u32).len() == char_width(c),
{
}

/// The byte length agrees with the length of vstd's UTF-8 encoding.
pub proof fn lemma_byte_len_encode(s: Seq<char>)
    ensures
        encode_utf8(s).len() == byte_len(s),
    decreases s.len(),
{
    if s.len() > 0 {
        lemma_byte_len_encode(s.drop_first());
        lemma_byte_len_concat(seq![s[0]], s.drop_first());
        assert(seq![s[0]] + s.drop_first() =~= s);
        assert(seq![s[0]].drop_last() =~= Seq::<char>::empty());
        assert(byte_len(Seq::<char>::empty()) == 0);
        assert(byte_len(seq![s[0]]) == char_width(s[0]));
        lemma_encode_scalar_width(s[0]);
        assert(encode_utf8(s) == encode_scalar(s[0] as u32) + encode_utf8(s.drop_first()));
    }
}

/// Byte width of one character.
pub fn char_byte_width(c: char) -> (w: usize)
    ensures
        w == char_width(c),
{
    let u = c as u32;
    if u < 0x80 {
        1
    } else if u < 0x800 {
        2
    } else if u < 0x10000 {
        3
    } else {
        4
    }
}

/// Byte length of `v[lo..hi]`.
pub fn byte_len_of(v: &Vec<char>, lo: usize, hi: usize) -> (n: usize)
    requires
        lo <= hi <= v@.len(),
        byte_len(v@) <= usize::MAX,
    ensures
        n == byte_len(v@.subrange(lo as int, hi as int)),
{
    let mut n: usize = 0;
    let mut i: usize = lo;
    while i < hi
        invariant
            lo <= i <= hi <= v@.len(),
            byte_len(v@) <= usize::MAX,
            n == byte_len(v@.subrange(lo as int, i as int)),
        decreases hi - i,
    {
        proof {
            assert(v@.subrange(lo as int, i + 1).drop_last() =~= v@.subrange(lo as int, i as int));
            lemma_byte_len_subrange(v@, lo as int, i + 1);
        }
        n = n + char_byte_width(v[i]);
        i = i + 1;
    }
    n
}

// ---------------------------------------------------------------------------
// Conversions between strings and character vectors
// ---------------------------------------------------------------------------

/// The characters of `s`, in order.
pub fn to_chars(s: &str) -> (v: Vec<char>)
    ensures
        v@ == s@,
{
    let mut v: Vec<char> = Vec::new();
    for c in it: s.chars()
        invariant
            v@ == it.seq().take(it.index()),
            it.seq() == s@,
    {
        v.push(c);
    }
    v
}

/// Appends one character to a `String` (`String::push`).
#[verifier::external_body]
pub(crate) fn push_char(s: &mut String, c: char)
    ensures
        final(s)@ == old(s)@.push(c),
{
    s.push(c)
}

/// Appends `v[lo..hi]` to `out`.
pub fn push_range(out: &mut String, v: &Vec<char>, lo: usize, hi: usize)
    requires
        lo <= hi <= v@.len(),
    ensures
        final(out)@ == old(out)@ + v@.subrange(lo as int, hi as int),
{
    let mut i = lo;
    while i < hi
        invariant
            lo <= i <= hi <= v@.len(),
            out@ == old(out)@ + v@.subrange(lo as int, i as int),
        decreases hi - i,
    {
        push_char(out, v[i]);
        proof {
            assert(v@.subrange(lo as int, i + 1) =~= v@.subrange(lo as int, i as int).push(v@[i as int]));
        }
        i = i + 1;
    }
}

/// A new `String` holding `v[lo..hi]`.
pub fn string_of_range(v: &Vec<char>, lo: usize, hi: usize) -> (s: String)
    requires
        lo <= hi <= v@.len(),
    ensures
        s@ == v@.subrange(lo as int, hi as int),
{
    let mut s = String::new();
    push_range(&mut s, v, lo, hi);
    s
}

// ---------------------------------------------------------------------------
// Trimming
// ---------------------------------------------------------------------------

/// `s` without its leading white space (`str::trim_start`).
pub open spec fn trim_start(s: Seq<char>) -> Seq<char>
    decreases s.len(),
{
    if s.len() > 0 && is_white_space(s[0]) {
        trim_start(s.drop_first())
    } else {
        s
    }
}

/// `s` without its trailing white space (`str::trim_end`).
pub open spec fn trim_end(s: Seq<char>) -> Seq<char>
    decreases s.len(),
{
    if s.len() > 0 && is_white_space(s.last()) {
        trim_end(s.drop_last())
    } else {
        s
    }
}

/// `s` without leading and trailing white space (`str::trim`).
pub open spec fn trim(s: Seq<char>) -> Seq<char> {
    trim_end(trim_start(s))
}

/// Bounds `(a, b)` such that `v[a..b]` is `v[lo..hi]` trimmed.
pub fn trim_bounds(v: &Vec<char>, lo: usize, hi: usize) -> (r: (usize, usize))
    requires
        lo <= hi <= v@.len(),
    ensures
        lo <= r.0 <= r.1 <= hi,
        v@.subrange(r.0 as int, r.1 as int) == trim(v@.subrange(lo as int, hi as int)),
{
    let mut a = lo;
    while a < hi && is_whitespace(v[a])
        invariant
            lo <= a <= hi <= v@.len(),
            trim_start(v@.subrange(lo as int, hi as int)) == trim_start(
                v@.subrange(a as int, hi as int),
            ),
        decreases hi - a,
    {
        assert(v@.subrange(a as int, hi as int).drop_first() =~= v@.subrange(a + 1, hi as int));
        a = a + 1;
    }
    let mut b = hi;
    while b > a && is_whitespace(v[b - 1])
        invariant
            lo <= a <= b <= hi <= v@.len(),
            trim(v@.subrange(lo as int, hi as int)) == trim_end(v@.subrange(a as int, b as int)),
        decreases b - a,
    {
        assert(v@.subrange(a as int, b as int).drop_last() =~= v@.subrange(a as int, b - 1));
        b = b - 1;
    }
    (a, b)
}


// ---------------------------------------------------------------------------
// Splitting and joining
// ---------------------------------------------------------------------------

/// `sep` occurs in `s` starting at position `i`.
pub open spec fn occurs_at(s: Seq<char>, sep: Seq<char>, i: int) -> bool {
    0 <= i && i + sep.len() <= s.len() && s.subrange(i, i + sep.len()) == sep
}

/// Position of the first occurrence of `sep` in `s` at or after `from`, or -1.
pub open spec fn find_from(s: Seq<char>, sep: Seq<char>, from: int) -> int
    decreases s.len() - from,
{
    if from < 0 || from >= s.len() || from + sep.len() > s.len() {
        -1
    } else if occurs_at(s, sep, from) {
        from
    } else {
        find_from(s, sep, from + 1)
    }
}

pub proof fn lemma_find_from(s: Seq<char>, sep: Seq<char>, from: int)
    ensures
        find_from(s, sep, from) == -1 || (from <= find_from(s, sep, from) && occurs_at(
            s,
            sep,
            find_from(s, sep, from),
        )),
    decreases s.len() - from,
{
    if from < 0 || from >= s.len() || from + sep.len() > s.len() {
    } else if occurs_at(s, sep, from) {
    } else {
        lemma_find_from(s, sep, from + 1);
    }
}

/// The pieces of `s` between non-overlapping occurrences of `sep`, scanned
/// from the left (`str::split` with a non-empty pattern).
pub open spec fn split(s: Seq<char>, sep: Seq<char>) -> Seq<Seq<char>>
    decreases s.len(),
{
    let i = find_from(s, sep, 0);
    if sep.len() == 0 || i < 0 {
        seq![s]
    } else {
        proof {
            lemma_find_from(s, sep, 0);
        }
        seq![s.take(i)] + split(s.skip(i + sep.len()), sep)
    }
}

/// `parts` concatenated with `sep` between neighbours.
pub open spec fn join(parts: Seq<Seq<char>>, sep: Seq<char>) -> Seq<char>
    decreases parts.len(),
{
    if parts.len() == 0 {
        Seq::empty()
    } else if parts.len() == 1 {
        parts[0]
    } else {
        parts[0] + sep + join(parts.drop_first(), sep)
    }
}

/// Splitting never yields an empty list of pieces.
pub proof fn lemma_split_nonempty(s: Seq<char>, sep: Seq<char>)
    ensures
        split(s, sep).len() >= 1,
    decreases s.len(),
{
    let i = find_from(s, sep, 0);
    if sep.len() == 0 || i < 0 {
    } else {
        lemma_find_from(s, sep, 0);
        lemma_split_nonempty(s.skip(i + sep.len()), sep);
    }
}

/// Joining the pieces of a split with the separator gives back the text.
pub proof fn lemma_join_split(s: Seq<char>, sep: Seq<char>)
    requires
        sep.len() > 0,
    ensures
        join(split(s, sep), sep) == s,
    decreases s.len(),
{
    let i = find_from(s, sep, 0);
    if i >= 0 {
        lemma_find_from(s, sep, 0);
        let rest = s.skip(i + sep.len());
        lemma_join_split(rest, sep);
        lemma_split_nonempty(rest, sep);
        let parts = split(s, sep);
        assert(parts.drop_first() =~= split(rest, sep));
        assert(s.take(i) + sep + rest =~= s);
    }
}

/// The text of the range `r` of `v`.
pub open spec fn range_text(v: Seq<char>, r: (usize, usize)) -> Seq<char> {
    v.subrange(r.0 as int, r.1 as int)
}

/// The texts of the ranges `rs` of `v`.
pub open spec fn ranges_text(v: Seq<char>, rs: Seq<(usize, usize)>) -> Seq<Seq<char>> {
    rs.map_values(|r: (usize, usize)| range_text(v, r))
}

/// Ranges that lie inside a text of length `n`.
pub open spec fn ranges_within(rs: Seq<(usize, usize)>, n: nat) -> bool {
    forall|k: int| 0 <= k < rs.len() ==> #[trigger] rs[k].0 <= rs[k].1 && rs[k].1 <= n
}

/// Whether `sep` occurs in `v` at position `i`.
fn occurs_at_exec(v: &Vec<char>, sep: &Vec<char>, i: usize) -> (r: bool)
    requires
        i + sep@.len() <= v@.len(),
    ensures
        r == occurs_at(v@, sep@, i as int),
{
    let m = sep.len();
    let mut k: usize = 0;
    while k < m
        invariant
            i + m <= v.len(),
            v.len() == v@.len(),
            m == sep@.len(),
            k <= m,
            forall|j: int| 0 <= j < k ==> v@[i + j] == sep@[j],
        decreases m - k,
    {
        if v[i + k] != sep[k] {
            assert(v@.subrange(i as int, i + m)[k as int] != sep@[k as int]);
            return false;
        }
        k = k + 1;
    }
    assert(v@.subrange(i as int, i + m) =~= sep@);
    true
}

/// The ranges of the pieces of `v` split at `sep`.
pub fn split_ranges(v: &Vec<char>, sep: &Vec<char>) -> (rs: Vec<(usize, usize)>)
    requires
        sep@.len() > 0,
    ensures
        ranges_text(v@, rs@) == split(v@, sep@),
        ranges_within(rs@, v@.len()),
{
    let n = v.len();
    let m = sep.len();
    let mut out: Vec<(usize, usize)> = Vec::new();
    let mut start: usize = 0;
    let mut i: usize = 0;
    proof {
        assert(v@.skip(0) =~= v@);
        assert(ranges_text(v@, out@) =~= Seq::<Seq<char>>::empty());
        assert(split(v@, sep@) =~= ranges_text(v@, out@) + split(v@.skip(0), sep@));
    }
    while m <= n && i <= n - m
        invariant
            n == v@.len(),
            m == sep@.len(),
            m > 0,
            start <= i <= n,
            split(v@, sep@) == ranges_text(v@, out@) + split(v@.skip(start as int), sep@),
            find_from(v@.skip(start as int), sep@, 0) == find_from(
                v@.skip(start as int),
                sep@,
                i - start,
            ),
            ranges_within(out@, n as nat),
        decreases n - i,
    {
        let ghost t = v@.skip(start as int);
        if occurs_at_exec(v, sep, i) {
            proof {
                assert(t.subrange(i - start, i - start + m) =~= v@.subrange(i as int, i + m));
                assert(occurs_at(t, sep@, i - start));
                assert(find_from(t, sep@, i - start) == i - start);
                assert(t.take(i - start) =~= v@.subrange(start as int, i as int));
                assert(t.skip(i - start + m) =~= v@.skip(i + m));
                assert(split(t, sep@) == seq![t.take(i - start)] + split(t.skip(i - start + m), sep@));
                assert(ranges_text(v@, out@.push((start, i))) =~= ranges_text(v@, out@) + seq![
                    v@.subrange(start as int, i as int),
                ]);
            }
            out.push((start, i));
            i = i + m;
            start = i;
        } else {
            proof {
                assert(t.subrange(i - start, i - start + m) =~= v@.subrange(i as int, i + m));
                assert(!occurs_at(t, sep@, i - start));
            }
            i = i + 1;
        }
    }
    proof {
        let t = v@.skip(start as int);
        assert(find_from(t, sep@, i - start) == -1);
        assert(split(t, sep@) == seq![t]);
        assert(t =~= v@.subrange(start as int, n as int));
        assert(ranges_text(v@, out@.push((start, n))) =~= ranges_text(v@, out@) + seq![
            v@.subrange(start as int, n as int),
        ]);
    }
    out.push((start, n));
    out
}

// ---------------------------------------------------------------------------
// Visible content
// ---------------------------------------------------------------------------

/// The characters of `s` that are not white space, in order.
pub open spec fn visible(s: Seq<char>) -> Seq<char>
    decreases s.len(),
{
    if s.len() == 0 {
        s
    } else if is_white_space(s.last()) {
        visible(s.drop_last())
    } else {
        visible(s.drop_last()).push(s.last())
    }
}

/// All of `parts`, concatenated in order.
pub open spec fn concat_all(parts: Seq<Seq<char>>) -> Seq<char>
    decreases parts.len(),
{
    if parts.len() == 0 {
        Seq::empty()
    } else {
        concat_all(parts.drop_last()) + parts.last()
    }
}

/// The views of a vector of strings.
pub open spec fn texts(v: Seq<String>) -> Seq<Seq<char>> {
    v.map_values(|p: String| p@)
}

pub proof fn lemma_visible_concat(a: Seq<char>, b: Seq<char>)
    ensures
        visible(a + b) == visible(a) + visible(b),
    decreases b.len(),
{
    if b.len() == 0 {
        assert(a + b =~= a);
        assert(visible(a) + visible(b) =~= visible(a));
    } else {
        lemma_visible_concat(a, b.drop_last());
        assert((a + b).drop_last() =~= a + b.drop_last());
        if !is_white_space(b.last()) {
            assert(visible(a) + visible(b.drop_last()).push(b.last()) =~= (visible(a) + visible(
                b.drop_last(),
            )).push(b.last()));
        }
    }
}

/// A text made only of white space has no visible content.
pub proof fn lemma_visible_blank(s: Seq<char>)
    requires
        forall|i: int| 0 <= i < s.len() ==> is_white_space(#[trigger] s[i]),
    ensures
        visible(s) == Seq::<char>::empty(),
    decreases s.len(),
{
    if s.len() > 0 {
        assert(is_white_space(s[s.len() - 1]));
        lemma_visible_blank(s.drop_last());
    }
}

pub proof fn lemma_visible_trim_start(s: Seq<char>)
    ensures
        visible(trim_start(s)) == visible(s),
    decreases s.len(),
{
    if s.len() > 0 && is_white_space(s[0]) {
        lemma_visible_trim_start(s.drop_first());
        lemma_visible_concat(seq![s[0]], s.drop_first());
        assert(seq![s[0]] + s.drop_first() =~= s);
        assert(seq![s[0]].drop_last() =~= Seq::<char>::empty());
        assert(visible(Seq::<char>::empty()) =~= Seq::<char>::empty());
        assert(visible(seq![s[0]]) =~= Seq::<char>::empty());
        assert(Seq::<char>::empty() + visible(s.drop_first()) =~= visible(s.drop_first()));
    }
}

pub proof fn lemma_visible_trim_end(s: Seq<char>)
    ensures
        visible(trim_end(s)) == visible(s),
    decreases s.len(),
{
    if s.len() > 0 && is_white_space(s.last()) {
        lemma_visible_trim_end(s.drop_last());
    }
}

/// Trimming removes no visible content.
pub proof fn lemma_visible_trim(s: Seq<char>)
    ensures
        visible(trim(s)) == visible(s),
{
    lemma_visible_trim_start(s);
    lemma_visible_trim_end(trim_start(s));
}

pub proof fn lemma_trim_start_head(s: Seq<char>)
    ensures
        trim_start(s).len() == 0 || !is_white_space(trim_start(s)[0]),
        trim_start(s).len() <= s.len(),
        trim_start(s) == s.skip(s.len() - trim_start(s).len()),
    decreases s.len(),
{
    if s.len() > 0 && is_white_space(s[0]) {
        lemma_trim_start_head(s.drop_first());
        assert(s.drop_first().skip(s.drop_first().len() - trim_start(s).len()) =~= s.skip(
            s.len() - trim_start(s).len(),
        ));
    } else {
        assert(s.skip(0) =~= s);
    }
}

pub proof fn lemma_trim_end_tail(s: Seq<char>)
    ensures
        trim_end(s).len() == 0 || !is_white_space(trim_end(s).last()),
        trim_end(s).len() <= s.len(),
        trim_end(s) == s.take(trim_end(s).len() as int),
    decreases s.len(),
{
    if s.len() > 0 && is_white_space(s.last()) {
        lemma_trim_end_tail(s.drop_last());
        assert(s.drop_last().take(trim_end(s).len() as int) =~= s.take(trim_end(s).len() as int));
    } else {
        assert(s.take(s.len() as int) =~= s);
    }
}

pub proof fn lemma_trim_end_keeps_head(s: Seq<char>)
    requires
        s.len() == 0 || !is_white_space(s[0]),
    ensures
        trim_end(s).len() == 0 || !is_white_space(trim_end(s)[0]),
{
    lemma_trim_end_tail(s);
    if trim_end(s).len() > 0 {
        assert(trim_end(s)[0] == s[0]);
    }
}

/// Trimming twice is trimming once.
pub proof fn lemma_trim_idempotent(s: Seq<char>)
    ensures
        trim(trim(s)) == trim(s),
{
    let t = trim(s);
    lemma_trim_start_head(s);
    lemma_trim_end_keeps_head(trim_start(s));
    lemma_trim_end_tail(trim_start(s));
    assert(trim_start(t) == t);
    assert(trim_end(t) == t);
}

/// Joining with an invisible separator keeps exactly the visible content of
/// the parts.
pub proof fn lemma_visible_join(parts: Seq<Seq<char>>, sep: Seq<char>)
    requires
        visible(sep) == Seq::<char>::empty(),
    ensures
        visible(join(parts, sep)) == visible(concat_all(parts)),
    decreases parts.len(),
{
    if parts.len() == 0 {
    } else if parts.len() == 1 {
        assert(parts.drop_last() =~= Seq::<Seq<char>>::empty());
        assert(concat_all(Seq::<Seq<char>>::empty()) =~= Seq::<char>::empty());
        assert(concat_all(parts) =~= Seq::<char>::empty() + parts[0]);
    } else {
        let rest = parts.drop_first();
        lemma_visible_join(rest, sep);
        lemma_visible_concat(parts[0] + sep, join(rest, sep));
        lemma_visible_concat(parts[0], sep);
        lemma_concat_all_first(parts);
        lemma_visible_concat(parts[0], concat_all(rest));
        assert(visible(parts[0]) + Seq::<char>::empty() =~= visible(parts[0]));
    }
}

pub proof fn lemma_concat_all_first(parts: Seq<Seq<char>>)
    requires
        parts.len() > 0,
    ensures
        concat_all(parts) == parts[0] + concat_all(parts.drop_first()),
    decreases parts.len(),
{
    if parts.len() == 1 {
        assert(parts.drop_last() =~= Seq::<Seq<char>>::empty());
        assert(parts.drop_first() =~= Seq::<Seq<char>>::empty());
        assert(concat_all(Seq::<Seq<char>>::empty()) =~= Seq::<char>::empty());
        assert(concat_all(parts) =~= parts[0] + concat_all(parts.drop_first()));
    } else {
        lemma_concat_all_first(parts.drop_last());
        assert(parts.drop_last().drop_first() =~= parts.drop_first().drop_last());
        assert(concat_all(parts) =~= parts[0] + concat_all(parts.drop_first()));
    }
}

// ---------------------------------------------------------------------------
// Byte prefixes and truncation
// ---------------------------------------------------------------------------

pub proof fn lemma_byte_len_at_least_len(s: Seq<char>)
    ensures
        byte_len(s) >= s.len(),
    decreases s.len(),
{
    if s.len() > 0 {
        lemma_byte_len_at_least_len(s.drop_last());
    }
}

/// Longer prefixes have strictly more bytes.
pub proof fn lemma_byte_len_take_increasing(s: Seq<char>, i: int, j: int)
    requires
        0 <= i <= j <= s.len(),
    ensures
        byte_len(s.take(i)) + (j - i) <= byte_len(s.take(j)),
{
    lemma_byte_len_concat(s.take(i), s.subrange(i, j));
    assert(s.take(i) + s.subrange(i, j) =~= s.take(j));
    lemma_byte_len_at_least_len(s.subrange(i, j));
}

/// Byte offset `n` falls between two characters of `s`.
pub open spec fn at_char_boundary(s: Seq<char>, n: nat) -> bool {
    exists|k: int| 0 <= k <= s.len() && byte_len(s.take(k)) == n
}

/// The number of characters in the first `n` bytes of `s`.
pub open spec fn chars_in_bytes(s: Seq<char>, n: nat) -> int {
    choose|k: int| 0 <= k <= s.len() && byte_len(s.take(k)) == n
}

/// `s` itself when it has at most `n` bytes; otherwise its first `n` bytes
/// followed by `...`.
pub open spec fn truncated(s: Seq<char>, n: nat) -> Seq<char> {
    if byte_len(s) <= n {
        s
    } else {
        s.take(chars_in_bytes(s, n)) + seq!['.', '.', '.']
    }
}

/// At most one prefix of `s` has exactly `n` bytes.
pub proof fn lemma_byte_prefix_unique(s: Seq<char>, n: nat, k1: int, k2: int)
    requires
        0 <= k1 <= s.len(),
        0 <= k2 <= s.len(),
        byte_len(s.take(k1)) == n,
        byte_len(s.take(k2)) == n,
    ensures
        k1 == k2,
{
    if k1 < k2 {
        lemma_byte_len_take_increasing(s, k1, k2);
    } else if k2 < k1 {
        lemma_byte_len_take_increasing(s, k2, k1);
    }
}

/// `s` cut to `max_len` bytes, marked with `...` when something was cut.
/// A cut inside a character is not possible, so a longer text must have a
/// character boundary at `max_len`.
pub fn truncate(s: &str, max_len: usize) -> (r: String)
    requires
        byte_len(s@) > max_len ==> at_char_boundary(s@, max_len as nat),
    ensures
        r@ == truncated(s@, max_len as nat),
{
    let v = to_chars(s);
    let n = v.len();
    let mut k: usize = 0;
    let mut bytes: usize = 0;
    while k < n && bytes < max_len
        invariant
            v@ == s@,
            n == v@.len(),
            k <= n,
            bytes == byte_len(v@.take(k as int)),
            bytes <= max_len,
            bytes == max_len ==> byte_len(v@.take(k as int)) == max_len,
            byte_len(s@) > max_len ==> at_char_boundary(s@, max_len as nat),
            forall|j: int| 0 <= j < k ==> byte_len(#[trigger] v@.take(j)) < max_len,
        decreases n - k,
    {
        let ghost old_k = k;
        proof {
            assert(v@.take(k + 1).drop_last() =~= v@.take(k as int));
            assert(v@.take(k + 1).last() == v@[k as int]);
        }
        let w = char_byte_width(v[k]);
        proof {
            if byte_len(v@.take(k + 1)) > max_len {
                // the boundary exists, so it lies between k and k + 1: impossible
                if byte_len(s@) > max_len {
                    let kb = choose|kb: int| 0 <= kb <= s@.len() && byte_len(s@.take(kb)) == max_len;
                    if kb <= k {
                        lemma_byte_len_take_increasing(v@, kb, k as int);
                        if kb < k {
                            assert(byte_len(v@.take(kb)) < max_len);
                        }
                    } else {
                        lemma_byte_len_take_increasing(v@, k + 1, kb);
                    }
                } else {
                    lemma_byte_len_take_increasing(v@, k + 1, n as int);
                    assert(v@.take(n as int) =~= v@);
                }
            }
        }
        bytes = bytes + w;
        k = k + 1;
    }
    if k == n {
        // the whole text fits in `max_len` bytes
        proof {
            assert(v@.take(n as int) =~= v@);
        }
        return s.to_owned();
    }
    let mut r = string_of_range(&v, 0, k);
    push_char(&mut r, '.');
    push_char(&mut r, '.');
    push_char(&mut r, '.');
    proof {
        lemma_byte_len_take_increasing(v@, k as int, n as int);
        assert(v@.take(n as int) =~= v@);
        assert(at_char_boundary(s@, max_len as nat));
        let c = chars_in_bytes(s@, max_len as nat);
        lemma_byte_prefix_unique(s@, max_len as nat, c, k as int);
        assert(v@.subrange(0, k as int) =~= v@.take(k as int));
        assert(r@ =~= s@.take(k as int) + seq!['.', '.', '.']);
    }
    r
}

// ---------------------------------------------------------------------------
// Lines
// ---------------------------------------------------------------------------

/// `line` without one trailing carriage return.
pub open spec fn strip_cr(line: Seq<char>) -> Seq<char> {
    if line.len() > 0 && line.last() == '\r' {
        line.drop_last()
    } else {
        line
    }
}

/// The lines of `s` (`str::lines`): split at `\n`, a `\r` before a `\n`
/// dropped, and no empty line after a final `\n`.
pub open spec fn lines(s: Seq<char>) -> Seq<Seq<char>> {
    let parts = split(s, seq!['\n']);
    let ended = parts.drop_last().map_values(|l: Seq<char>| strip_cr(l));
    if parts.last().len() == 0 {
        ended
    } else {
        ended.push(parts.last())
    }
}

/// The ranges of the lines of `v`.
pub fn line_ranges(v: &Vec<char>) -> (rs: Vec<(usize, usize)>)
    ensures
        ranges_text(v@, rs@) == lines(v@),
        ranges_within(rs@, v@.len()),
{
    let mut nl: Vec<char> = Vec::new();
    nl.push('\n');
    assert(nl@ =~= seq!['\n']);
    let parts = split_ranges(v, &nl);
    proof {
        lemma_split_nonempty(v@, seq!['\n']);
    }
    let ghost ptexts = ranges_text(v@, parts@);
    let ghost ended = ptexts.drop_last().map_values(|l: Seq<char>| strip_cr(l));
    let last = parts.len() - 1;
    let mut rs: Vec<(usize, usize)> = Vec::new();
    let mut k: usize = 0;
    while k < last
        invariant
            last + 1 == parts@.len(),
            k <= last,
            ptexts == ranges_text(v@, parts@),
            ended == ptexts.drop_last().map_values(|l: Seq<char>| strip_cr(l)),
            ranges_within(parts@, v@.len()),
            ranges_within(rs@, v@.len()),
            ranges_text(v@, rs@) == ended.take(k as int),
        decreases last - k,
    {
        let (lo, hi) = parts[k];
        let r = if lo < hi && v[hi - 1] == '\r' {
            (lo, hi - 1)
        } else {
            (lo, hi)
        };
        proof {
            let t = v@.subrange(lo as int, hi as int);
            assert(ended[k as int] == strip_cr(t));
            if lo < hi && v@[hi - 1] == '\r' {
                assert(t.drop_last() =~= v@.subrange(lo as int, hi - 1));
            }
            assert(ranges_text(v@, rs@.push(r)) =~= ranges_text(v@, rs@).push(range_text(v@, r)));
            assert(ended.take(k + 1) =~= ended.take(k as int).push(ended[k as int]));
        }
        rs.push(r);
        k = k + 1;
    }
    proof {
        assert(ended.take(last as int) =~= ended);
    }
    let (lo, hi) = parts[last];
    if lo < hi {
        proof {
            assert(ranges_text(v@, rs@.push((lo, hi))) =~= ranges_text(v@, rs@).push(
                v@.subrange(lo as int, hi as int),
            ));
        }
        rs.push((lo, hi));
    }
    rs
}

/// `s` without its leading `#` characters (`str::trim_start_matches('#')`).
pub open spec fn strip_hashes(s: Seq<char>) -> Seq<char>
    decreases s.len(),
{
    if s.len() > 0 && s[0] == '#' {
        strip_hashes(s.drop_first())
    } else {
        s
    }
}

/// Start of `v[lo..hi]` without its leading `#` characters.
pub fn strip_hashes_from(v: &Vec<char>, lo: usize, hi: usize) -> (a: usize)
    requires
        lo <= hi <= v@.len(),
    ensures
        lo <= a <= hi,
        v@.subrange(a as int, hi as int) == strip_hashes(v@.subrange(lo as int, hi as int)),
{
    let mut a = lo;
    while a < hi && v[a] == '#'
        invariant
            lo <= a <= hi <= v@.len(),
            strip_hashes(v@.subrange(lo as int, hi as int)) == strip_hashes(
                v@.subrange(a as int, hi as int),
            ),
        decreases hi - a,
    {
        assert(v@.subrange(a as int, hi as int).drop_first() =~= v@.subrange(a + 1, hi as int));
        a = a + 1;
    }
    a
}

/// Unicode `Uppercase` property of a character, as `char::is_uppercase`
/// decides it.
pub uninterp spec fn char_uppercase(c: char) -> bool;

/// `char::is_uppercase`: whether `c` has the Unicode `Uppercase` property.
/// The contract names the result; the Unicode tables are not restated.
#[verifier::external_body]
pub(crate) fn is_uppercase(c: char) -> (r: bool)
    ensures
        r == char_uppercase(c),
{
    c.is_uppercase()
}

/// Whether two strings hold the same characters.
pub fn same_text(a: &str, b: &str) -> (r: bool)
    ensures
        r == (a@ == b@),
{
    let x = to_chars(a);
    let y = to_chars(b);
    if x.len() != y.len() {
        return false;
    }
    let mut i: usize = 0;
    while i < x.len()
        invariant
            x@ == a@,
            y@ == b@,
            x@.len() == y@.len(),
            i <= x@.len(),
            forall|j: int| 0 <= j < i ==> x@[j] == y@[j],
        decreases x@.len() - i,
    {
        if x[i] != y[i] {
            return false;
        }
        i = i + 1;
    }
    assert(x@ =~= y@);
    true
}

/// Joining one more part appends the separator and the part.
pub proof fn lemma_join_push(parts: Seq<Seq<char>>, sep: Seq<char>, x: Seq<char>)
    ensures
        join(parts.push(x), sep) == if parts.len() == 0 {
            x
        } else {
            join(parts, sep) + sep + x
        },
    decreases parts.len(),
{
    if parts.len() == 1 {
        assert(parts.push(x).drop_first() =~= seq![x]);
        assert(join(seq![x], sep) == x);
    } else if parts.len() > 1 {
        lemma_join_push(parts.drop_first(), sep, x);
        assert(parts.push(x).drop_first() =~= parts.drop_first().push(x));
        assert(parts[0] + sep + (join(parts.drop_first(), sep) + sep + x) =~= parts[0] + sep
            + join(parts.drop_first(), sep) + sep + x);
    }
}

} // verus!
