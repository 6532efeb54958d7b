//! Page splitting and the per-page tree index built for uploaded documents.
use vstd::prelude::*;
use crate::text::{
    byte_len, byte_len_of, concat_all, find_from, lemma_byte_len_concat, lemma_byte_len_subrange,
    lemma_byte_len_encode, lemma_find_from, lemma_join_split, lemma_trim_idempotent, lemma_visible_blank,
    lemma_visible_concat, lemma_visible_join, lemma_visible_trim, ranges_text, ranges_within, split,
    split_ranges, string_of_range, texts, to_chars, trim, trim_bounds, visible, at_char_boundary,
    truncated, truncate, lines, line_ranges, strip_hashes, strip_hashes_from, char_uppercase,
    is_uppercase, is_white_space, is_whitespace, is_ascii_punct, is_ascii_punctuation, occurs_at,
    lemma_split_nonempty,
};

verus! {

/// Byte budget of a page assembled from paragraphs.
pub const PAGE_BYTES: usize = 3000;

/// The separator between paragraphs: an empty line.
pub open spec fn para_sep() -> Seq<char> {
    seq!['\n', '\n']
}

/// The form feed that separates pages in extracted text.
pub open spec fn form_feed() -> Seq<char> {
    seq!['\x0C']
}

/// One step of greedy page packing: `acc` holds the finished pages and the
/// page being filled; `para` is the next paragraph.
pub open spec fn pack_step(acc: (Seq<Seq<char>>, Seq<char>), para: Seq<char>) -> (
    Seq<Seq<char>>,
    Seq<char>,
) {
    let flush = byte_len(acc.1) + byte_len(para) > PAGE_BYTES && acc.1.len() > 0;
    let pages = if flush {
        acc.0.push(trim(acc.1))
    } else {
        acc.0
    };
    let cur = if flush {
        Seq::<char>::empty()
    } else {
        acc.1
    };
    (pages, if cur.len() > 0 {
        cur + para_sep() + para
    } else {
        para
    })
}

/// Greedy packing of `paras` into pages: the finished pages and the page
/// still being filled.
pub open spec fn pack(paras: Seq<Seq<char>>) -> (Seq<Seq<char>>, Seq<char>)
    decreases paras.len(),
{
    if paras.len() == 0 {
        (Seq::empty(), Seq::empty())
    } else {
        pack_step(pack(paras.drop_last()), paras.last())
    }
}

/// Pages of a text without form feeds: paragraphs packed greedily into pages
/// of at most `PAGE_BYTES` bytes (a page is only started over the budget when
/// it already holds a paragraph); the text itself if no page has content.
pub open spec fn paginate(text: Seq<char>) -> Seq<Seq<char>> {
    let packed = pack(split(text, para_sep()));
    let pages = if trim(packed.1).len() > 0 {
        packed.0.push(trim(packed.1))
    } else {
        packed.0
    };
    if pages.len() == 0 {
        seq![text]
    } else {
        pages
    }
}

/// The non-empty members of `ps`, in order.
pub open spec fn nonempty_pieces(ps: Seq<Seq<char>>) -> Seq<Seq<char>>
    decreases ps.len(),
{
    if ps.len() == 0 {
        ps
    } else if ps.last().len() > 0 {
        nonempty_pieces(ps.drop_last()).push(ps.last())
    } else {
        nonempty_pieces(ps.drop_last())
    }
}

/// The pages of a document text: the trimmed, non-empty form-feed separated
/// pages when the text has a form feed, and paragraph packing otherwise.
pub open spec fn pages_of(text: Seq<char>) -> Seq<Seq<char>> {
    let parts = split(text, form_feed());
    if parts.len() > 1 {
        nonempty_pieces(parts.map_values(|p: Seq<char>| trim(p)))
    } else {
        paginate(text)
    }
}

// ---------------------------------------------------------------------------
// Lemmas on page splitting
// ---------------------------------------------------------------------------

proof fn lemma_sep_invisible()
    ensures
        visible(para_sep()) == Seq::<char>::empty(),
        visible(form_feed()) == Seq::<char>::empty(),
{
    lemma_visible_blank(para_sep());
    lemma_visible_blank(form_feed());
}

/// Packing keeps the visible content of the paragraphs.
proof fn lemma_pack_visible(paras: Seq<Seq<char>>)
    ensures
        visible(concat_all(pack(paras).0) + pack(paras).1) == visible(concat_all(paras)),
    decreases paras.len(),
{
    if paras.len() > 0 {
        let prev = paras.drop_last();
        let para = paras.last();
        lemma_pack_visible(prev);
        let (pg, cur) = pack(prev);
        let flush = byte_len(cur) + byte_len(para) > PAGE_BYTES && cur.len() > 0;
        lemma_visible_concat(concat_all(pg), cur);
        lemma_visible_concat(concat_all(prev), para);
        lemma_sep_invisible();
        if flush {
            let npg = pg.push(trim(cur));
            assert(npg.drop_last() =~= pg);
            lemma_visible_concat(concat_all(npg), para);
            lemma_visible_concat(concat_all(pg), trim(cur));
            lemma_visible_trim(cur);
        } else if cur.len() > 0 {
            lemma_visible_concat(concat_all(pg), cur + para_sep() + para);
            lemma_visible_concat(cur + para_sep(), para);
            lemma_visible_concat(cur, para_sep());
            assert(visible(cur) + Seq::<char>::empty() =~= visible(cur));
            assert(concat_all(pg) + (cur + para_sep() + para) =~= concat_all(pg) + cur + para_sep()
                + para);
            assert(visible(concat_all(pg)) + (visible(cur) + visible(para)) =~= visible(concat_all(pg))
                + visible(cur) + visible(para));
        } else {
            assert(cur =~= Seq::<char>::empty());
            assert(concat_all(pg) + cur =~= concat_all(pg));
            lemma_visible_concat(concat_all(pg), para);
        }
    }
}

proof fn lemma_nonempty_pieces_visible(ps: Seq<Seq<char>>)
    ensures
        visible(concat_all(nonempty_pieces(ps))) == visible(concat_all(ps)),
    decreases ps.len(),
{
    if ps.len() > 0 {
        lemma_nonempty_pieces_visible(ps.drop_last());
        lemma_visible_concat(concat_all(ps.drop_last()), ps.last());
        if ps.last().len() > 0 {
            let r = nonempty_pieces(ps.drop_last()).push(ps.last());
            assert(r.drop_last() =~= nonempty_pieces(ps.drop_last()));
            lemma_visible_concat(concat_all(nonempty_pieces(ps.drop_last())), ps.last());
        } else {
            assert(ps.last() =~= Seq::<char>::empty());
            assert(visible(concat_all(ps.drop_last())) + visible(ps.last()) =~= visible(
                concat_all(ps.drop_last()),
            ));
        }
    }
}

proof fn lemma_concat_trims_visible(ps: Seq<Seq<char>>)
    ensures
        visible(concat_all(ps.map_values(|p: Seq<char>| trim(p)))) == visible(concat_all(ps)),
    decreases ps.len(),
{
    if ps.len() > 0 {
        let t = ps.map_values(|p: Seq<char>| trim(p));
        lemma_concat_trims_visible(ps.drop_last());
        assert(t.drop_last() =~= ps.drop_last().map_values(|p: Seq<char>| trim(p)));
        lemma_visible_concat(concat_all(t.drop_last()), t.last());
        lemma_visible_concat(concat_all(ps.drop_last()), ps.last());
        lemma_visible_trim(ps.last());
    }
}

/// Every member of `nonempty_pieces(ps)` is a non-empty member of `ps`.
proof fn lemma_nonempty_piece_member(ps: Seq<Seq<char>>, i: int) -> (j: int)
    requires
        0 <= i < nonempty_pieces(ps).len(),
    ensures
        0 <= j < ps.len(),
        ps[j] == nonempty_pieces(ps)[i],
        ps[j].len() > 0,
    decreases ps.len(),
{
    let q = nonempty_pieces(ps.drop_last());
    if i < q.len() {
        let j = lemma_nonempty_piece_member(ps.drop_last(), i);
        assert(ps[j] == ps.drop_last()[j]);
        j
    } else {
        ps.len() - 1
    }
}

/// The pages finished by packing are trimmed.
proof fn lemma_pack_trimmed(paras: Seq<Seq<char>>)
    ensures
        forall|i: int|
            0 <= i < pack(paras).0.len() ==> trim(#[trigger] pack(paras).0[i]) == pack(
                paras,
            ).0[i],
    decreases paras.len(),
{
    if paras.len() > 0 {
        lemma_pack_trimmed(paras.drop_last());
        let (pg, cur) = pack(paras.drop_last());
        lemma_trim_idempotent(cur);
        let npg = pack(paras).0;
        assert forall|i: int| 0 <= i < npg.len() implies trim(#[trigger] npg[i]) == npg[i] by {
            if i < pg.len() {
                assert(npg[i] == pg[i]);
            }
        }
    }
}

/// A text without a form feed splits at form feeds into one piece.
proof fn lemma_no_form_feed(text: Seq<char>)
    requires
        !text.contains('\x0C'),
    ensures
        split(text, form_feed()).len() == 1,
{
    lemma_find_from(text, form_feed(), 0);
    let i = find_from(text, form_feed(), 0);
    if i >= 0 {
        assert(text.subrange(i, i + 1)[0] == '\x0C');
        assert(text[i] == '\x0C');
    }
}

// ---------------------------------------------------------------------------
// Executable page splitting
// ---------------------------------------------------------------------------

/// A new string holding `v` trimmed.
fn trimmed_string(v: &Vec<char>) -> (s: String)
    ensures
        s@ == trim(v@),
{
    let (a, b) = trim_bounds(v, 0, v.len());
    assert(v@.subrange(0, v@.len() as int) =~= v@);
    string_of_range(v, a, b)
}

/// Appends `v[lo..hi]` to the character vector `out`.
fn extend_range(out: &mut Vec<char>, v: &Vec<char>, lo: usize, hi: usize)
    requires
        lo <= hi <= v@.len(),
    ensures
        final(out)@ == old(out)@ + v@.subrange(lo as int, hi as int),
{
    let mut i = lo;
    while i < hi
        invariant
            lo <= i <= hi <= v@.len(),
            out@ == old(out)@ + v@.subrange(lo as int, i as int),
        decreases hi - i,
    {
        out.push(v[i]);
        proof {
            assert(v@.subrange(lo as int, i + 1) =~= v@.subrange(lo as int, i as int).push(
                v@[i as int],
            ));
        }
        i = i + 1;
    }
}

/// The trimmed, non-empty form-feed separated pages.
fn form_feed_pages(v: &Vec<char>, parts: &Vec<(usize, usize)>) -> (pages: Vec<String>)
    requires
        ranges_within(parts@, v@.len()),
    ensures
        texts(pages@) == nonempty_pieces(
            ranges_text(v@, parts@).map_values(|p: Seq<char>| trim(p)),
        ),
{
    let ghost all = ranges_text(v@, parts@).map_values(|p: Seq<char>| trim(p));
    let mut pages: Vec<String> = Vec::new();
    let mut k: usize = 0;
    while k < parts.len()
        invariant
            k <= parts@.len(),
            ranges_within(parts@, v@.len()),
            all == ranges_text(v@, parts@).map_values(|p: Seq<char>| trim(p)),
            texts(pages@) == nonempty_pieces(all.take(k as int)),
        decreases parts@.len() - k,
    {
        let (lo, hi) = parts[k];
        let (a, b) = trim_bounds(v, lo, hi);
        proof {
            assert(all.take(k + 1).drop_last() =~= all.take(k as int));
            assert(all.take(k + 1).last() == all[k as int]);
            assert(all[k as int] == trim(v@.subrange(lo as int, hi as int)));
        }
        if a < b {
            let page = string_of_range(v, a, b);
            pages.push(page);
            proof {
                assert(texts(pages@) =~= texts(pages@.drop_last()).push(page@));
            }
        }
        k = k + 1;
    }
    assert(all.take(parts@.len() as int) =~= all);
    pages
}

/// Greedy packing of the paragraphs `paras` of `v`.
fn pack_paragraphs(v: &Vec<char>, paras: &Vec<(usize, usize)>) -> (r: (Vec<String>, Vec<char>))
    requires
        ranges_within(paras@, v@.len()),
        byte_len(v@) <= usize::MAX,
    ensures
        texts(r.0@) == pack(ranges_text(v@, paras@)).0,
        r.1@ == pack(ranges_text(v@, paras@)).1,
{
    let ghost ptexts = ranges_text(v@, paras@);
    let mut pages: Vec<String> = Vec::new();
    let mut current: Vec<char> = Vec::new();
    let mut cur_bytes: usize = 0;
    let mut k: usize = 0;
    while k < paras.len()
        invariant
            k <= paras@.len(),
            ranges_within(paras@, v@.len()),
            ptexts == ranges_text(v@, paras@),
            byte_len(v@) <= usize::MAX,
            texts(pages@) == pack(ptexts.take(k as int)).0,
            current@ == pack(ptexts.take(k as int)).1,
            cur_bytes == byte_len(current@),
        decreases paras@.len() - k,
    {
        let (lo, hi) = paras[k];
        proof {
            lemma_byte_len_subrange(v@, lo as int, hi as int);
            assert(ptexts.take(k + 1).drop_last() =~= ptexts.take(k as int));
            assert(ptexts.take(k + 1).last() == v@.subrange(lo as int, hi as int));
        }
        let para_bytes = byte_len_of(v, lo, hi);
        let over = para_bytes > PAGE_BYTES || cur_bytes > PAGE_BYTES - para_bytes;
        if over && current.len() > 0 {
            let page = trimmed_string(&current);
            pages.push(page);
            current = Vec::new();
            cur_bytes = 0;
            proof {
                assert(texts(pages@) =~= texts(pages@.drop_last()).push(page@));
            }
        }
        if current.len() > 0 {
            let ghost before = current@;
            current.push('\n');
            current.push('\n');
            proof {
                assert(current@ =~= before + para_sep());
                lemma_byte_len_concat(before, para_sep());
                assert(para_sep().drop_last() =~= seq!['\n']);
                assert(seq!['\n'].drop_last() =~= Seq::<char>::empty());
                assert(byte_len(Seq::<char>::empty()) == 0);
                assert(byte_len(seq!['\n']) == 1);
                assert(byte_len(para_sep()) == 2);
            }
            let ghost with_sep = current@;
            extend_range(&mut current, v, lo, hi);
            proof {
                lemma_byte_len_concat(with_sep, v@.subrange(lo as int, hi as int));
            }
            cur_bytes = cur_bytes + 2 + para_bytes;
        } else {
            extend_range(&mut current, v, lo, hi);
            proof {
                assert(current@ =~= v@.subrange(lo as int, hi as int));
            }
            cur_bytes = para_bytes;
        }
        k = k + 1;
    }
    proof {
        assert(ptexts.take(paras@.len() as int) =~= ptexts);
    }
    (pages, current)
}

/// Pages of a text without form feeds.
fn paginate_exec(text: &str, v: &Vec<char>) -> (pages: Vec<String>)
    requires
        v@ == text@,
        byte_len(v@) <= usize::MAX,
    ensures
        texts(pages@) == paginate(text@),
{
    let mut sep: Vec<char> = Vec::new();
    sep.push('\n');
    sep.push('\n');
    assert(sep@ =~= para_sep());
    let paras = split_ranges(v, &sep);
    let (mut pages, current) = pack_paragraphs(v, &paras);
    let ghost packed = pack(split(text@, para_sep()));
    let (a, b) = trim_bounds(&current, 0, current.len());
    proof {
        assert(current@.subrange(0, current@.len() as int) =~= current@);
    }
    if a < b {
        let page = string_of_range(&current, a, b);
        pages.push(page);
        proof {
            assert(texts(pages@) =~= packed.0.push(trim(packed.1)));
        }
    }
    if pages.len() == 0 {
        pages.push(text.to_owned());
        proof {
            assert(texts(pages@) =~= seq![text@]);
        }
    }
    pages
}

/// What `paginate` guarantees: visible content is kept, there is a page, and
/// every page is trimmed unless the text itself is the only page.
proof fn lemma_paginate_laws(text: Seq<char>)
    ensures
        visible(concat_all(paginate(text))) == visible(text),
        paginate(text).len() >= 1,
        paginate(text) == seq![text] || forall|i: int|
            0 <= i < paginate(text).len() ==> trim(#[trigger] paginate(text)[i]) == paginate(
                text,
            )[i],
{
    let ptexts = split(text, para_sep());
    let packed = pack(ptexts);
    lemma_sep_invisible();
    lemma_join_split(text, para_sep());
    lemma_visible_join(ptexts, para_sep());
    lemma_pack_visible(ptexts);
    lemma_pack_trimmed(ptexts);
    lemma_trim_idempotent(packed.1);
    lemma_visible_concat(concat_all(packed.0), packed.1);
    lemma_visible_trim(packed.1);
    if trim(packed.1).len() > 0 {
        let np = packed.0.push(trim(packed.1));
        assert(np.drop_last() =~= packed.0);
        lemma_visible_concat(concat_all(packed.0), trim(packed.1));
        assert forall|i: int| 0 <= i < np.len() implies trim(#[trigger] np[i]) == np[i] by {
            if i < packed.0.len() {
                assert(np[i] == packed.0[i]);
            }
        }
    } else {
        assert(trim(packed.1) =~= Seq::<char>::empty());
        assert(visible(packed.1) =~= Seq::<char>::empty());
        assert(visible(concat_all(packed.0)) + Seq::<char>::empty() =~= visible(
            concat_all(packed.0),
        ));
        if packed.0.len() == 0 {
            assert(seq![text].drop_last() =~= Seq::<Seq<char>>::empty());
            assert(concat_all(Seq::<Seq<char>>::empty()) =~= Seq::<char>::empty());
            assert(concat_all(seq![text]) =~= text);
        }
    }
}

/// What the form-feed branch guarantees: visible content is kept and every
/// page is trimmed.
proof fn lemma_form_feed_laws(text: Seq<char>)
    ensures
        ({
            let pages = nonempty_pieces(
                split(text, form_feed()).map_values(|p: Seq<char>| trim(p)),
            );
            &&& visible(concat_all(pages)) == visible(text)
            &&& forall|i: int| 0 <= i < pages.len() ==> trim(#[trigger] pages[i]) == pages[i]
        }),
{
    let ps = split(text, form_feed());
    let tps = ps.map_values(|p: Seq<char>| trim(p));
    let pages = nonempty_pieces(tps);
    lemma_sep_invisible();
    lemma_join_split(text, form_feed());
    lemma_visible_join(ps, form_feed());
    lemma_nonempty_pieces_visible(tps);
    lemma_concat_trims_visible(ps);
    assert forall|i: int| 0 <= i < pages.len() implies trim(#[trigger] pages[i]) == pages[i] by {
        let j = lemma_nonempty_piece_member(tps, i);
        lemma_trim_idempotent(ps[j]);
    }
}

/// The laws of page splitting: no visible character is lost or added, a text
/// without form feeds always has a page, and pages are trimmed unless the
/// text itself is the only page.
pub proof fn lemma_pages_of_laws(text: Seq<char>)
    ensures
        visible(concat_all(pages_of(text))) == visible(text),
        !text.contains('\x0C') ==> pages_of(text).len() >= 1,
        pages_of(text) == seq![text] || forall|i: int|
            0 <= i < pages_of(text).len() ==> trim(#[trigger] pages_of(text)[i]) == pages_of(
                text,
            )[i],
{
    lemma_form_feed_laws(text);
    lemma_paginate_laws(text);
    if !text.contains('\x0C') {
        lemma_no_form_feed(text);
    }
}

/// A separator that occurs at `j` is found by a search starting at or
/// before `j`, at or before `j`.
proof fn lemma_find_from_finds(s: Seq<char>, sep: Seq<char>, from: int, j: int)
    requires
        0 <= from <= j,
        sep.len() > 0,
        occurs_at(s, sep, j),
    ensures
        from <= find_from(s, sep, from) <= j,
    decreases j - from,
{
    if !occurs_at(s, sep, from) {
        lemma_find_from_finds(s, sep, from + 1, j);
    }
}

/// A form feed at position `i` of `text`.
proof fn lemma_form_feed_at(text: Seq<char>, i: int)
    requires
        0 <= i < text.len(),
        text[i] == '\x0C',
    ensures
        occurs_at(text, form_feed(), i),
{
    assert(text.subrange(i, i + 1) =~= form_feed());
}

/// A text with a form feed splits at form feeds into more than one piece.
proof fn lemma_form_feed_splits(text: Seq<char>)
    requires
        text.contains('\x0C'),
    ensures
        split(text, form_feed()).len() > 1,
{
    let i = choose|i: int| 0 <= i < text.len() && text[i] == '\x0C';
    lemma_form_feed_at(text, i);
    lemma_find_from_finds(text, form_feed(), 0, i);
    let k = find_from(text, form_feed(), 0);
    lemma_split_nonempty(text.skip(k + 1), form_feed());
}

/// A text that contains a form feed is paged at its form feeds: the pages
/// are exactly its form-feed separated pieces, trimmed, without the blank
/// ones.
pub proof fn lemma_form_feed_pages(text: Seq<char>)
    requires
        text.contains('\x0C'),
    ensures
        pages_of(text) == nonempty_pieces(
            split(text, form_feed()).map_values(|p: Seq<char>| trim(p)),
        ),
{
    lemma_form_feed_splits(text);
}

/// A text made of two form-feed-free parts joined by one form feed, each
/// with content, gives exactly two pages: the two parts, trimmed.
pub proof fn lemma_two_pages(a: Seq<char>, b: Seq<char>)
    requires
        !a.contains('\x0C'),
        !b.contains('\x0C'),
        trim(a).len() > 0,
        trim(b).len() > 0,
    ensures
        pages_of(a + seq!['\x0C'] + b) == seq![trim(a), trim(b)],
{
    let text = a + seq!['\x0C'] + b;
    assert(text[a.len() as int] == '\x0C');
    lemma_form_feed_at(text, a.len() as int);
    lemma_find_from_finds(text, form_feed(), 0, a.len() as int);
    let k = find_from(text, form_feed(), 0);
    lemma_find_from(text, form_feed(), 0);
    if k < a.len() {
        assert(text.subrange(k, k + 1)[0] == text[k]);
        assert(text[k] == a[k]);
        assert(a.contains(a[k]));
    }
    assert(k == a.len());
    assert(text.take(k) =~= a);
    assert(text.skip(k + 1) =~= b);
    lemma_no_form_feed(b);
    lemma_find_from(b, form_feed(), 0);
    let kb = find_from(b, form_feed(), 0);
    if kb >= 0 {
        assert(b.subrange(kb, kb + 1)[0] == b[kb]);
        assert(b.contains(b[kb]));
    }
    assert(split(b, form_feed()) == seq![b]);
    let parts = split(text, form_feed());
    assert(parts =~= seq![a, b]);
    lemma_form_feed_pages(text);
    let t = parts.map_values(|p: Seq<char>| trim(p));
    assert(t =~= seq![trim(a), trim(b)]);
    assert(t.drop_last() =~= seq![trim(a)]);
    assert(t.drop_last().drop_last() =~= Seq::<Seq<char>>::empty());
    assert(seq![trim(a)].drop_last() =~= Seq::<Seq<char>>::empty());
    assert(nonempty_pieces(Seq::<Seq<char>>::empty()) =~= Seq::<Seq<char>>::empty());
    assert(seq![trim(a)].last() == trim(a));
    assert(nonempty_pieces(seq![trim(a)]) =~= seq![trim(a)]);
    assert(nonempty_pieces(t) =~= seq![trim(a), trim(b)]);
}

/// Splits a document text into pages.
///
/// A text with form feeds is split at them, each page trimmed and blank pages
/// dropped.  Otherwise paragraphs (separated by empty lines) are packed
/// greedily into pages of about 3000 bytes; if no page has content the text
/// itself is the single page.  No visible (non white space) character is lost
/// or added.
pub fn split_into_pages(text: &str) -> (pages: Vec<String>)
    requires
        byte_len(text@) <= usize::MAX,
    ensures
        texts(pages@) == pages_of(text@),
        visible(concat_all(texts(pages@))) == visible(text@),
        !text@.contains('\x0C') ==> pages@.len() >= 1,
        texts(pages@) == seq![text@] || forall|i: int|
            0 <= i < pages@.len() ==> trim(#[trigger] texts(pages@)[i]) == texts(pages@)[i],
        text@.contains('\x0C') ==> texts(pages@) == nonempty_pieces(
            split(text@, form_feed()).map_values(|p: Seq<char>| trim(p)),
        ),
{
    proof {
        lemma_pages_of_laws(text@);
        if text@.contains('\x0C') {
            lemma_form_feed_pages(text@);
        }
    }
    let v = to_chars(text);
    let mut ff: Vec<char> = Vec::new();
    ff.push('\x0C');
    assert(ff@ =~= form_feed());
    let parts = split_ranges(&v, &ff);
    if parts.len() > 1 {
        form_feed_pages(&v, &parts)
    } else {
        paginate_exec(text, &v)
    }
}

// ---------------------------------------------------------------------------
// Tree index of a page
// ---------------------------------------------------------------------------

/// Byte budget of a page summary.
pub const SUMMARY_BYTES: usize = 300;

/// A heading found on a page.
pub struct Topic {
    pub name: String,
    /// Always `heading`.
    pub kind: String,
}

/// The navigation index of one page: its number, a summary, its size in
/// bytes and its headings.
pub struct TreeIndex {
    pub page: i32,
    pub summary: String,
    pub char_count: usize,
    pub topics: Vec<Topic>,
}

/// A character allowed in an all-capitals heading.
pub open spec fn heading_char(c: char) -> bool {
    char_uppercase(c) || is_white_space(c) || is_ascii_punct(c)
}

/// A line is a heading when, trimmed, it starts with `#`, or it has more than
/// 3 and fewer than 80 bytes, all of them capitals, white space or ASCII
/// punctuation.
pub open spec fn is_heading(line: Seq<char>) -> bool {
    let t = trim(line);
    ||| t.len() > 0 && t[0] == '#'
    ||| 3 < byte_len(t) < 80 && forall|i: int| 0 <= i < t.len() ==> heading_char(#[trigger] t[i])
}

/// The name of a heading line: trimmed, without leading `#`, trimmed again.
pub open spec fn heading_name(line: Seq<char>) -> Seq<char> {
    trim(strip_hashes(trim(line)))
}

/// Which lines are headings: a line whose trimmed text starts with `#` is
/// one; any other line is one exactly when its trimmed text has 4 to 79
/// bytes and each of its characters is a capital letter, white space (so
/// several capital words qualify) or ASCII punctuation.
pub proof fn lemma_heading_lines(line: Seq<char>)
    ensures
        trim(line).len() > 0 && trim(line)[0] == '#' ==> is_heading(line),
        !(trim(line).len() > 0 && trim(line)[0] == '#') ==> (is_heading(line) <==> (3 < byte_len(
            trim(line),
        ) < 80 && forall|i: int|
            0 <= i < trim(line).len() ==> char_uppercase(#[trigger] trim(line)[i])
                || is_white_space(trim(line)[i]) || is_ascii_punct(trim(line)[i]))),
{
    let t = trim(line);
    if 3 < byte_len(t) < 80 && forall|i: int|
        0 <= i < t.len() ==> char_uppercase(#[trigger] t[i]) || is_white_space(t[i])
            || is_ascii_punct(t[i]) {
        assert forall|i: int| 0 <= i < t.len() implies heading_char(#[trigger] t[i]) by {
            assert(char_uppercase(t[i]) || is_white_space(t[i]) || is_ascii_punct(t[i]));
        }
    }
    if is_heading(line) && !(t.len() > 0 && t[0] == '#') {
        assert forall|i: int| 0 <= i < t.len() implies char_uppercase(#[trigger] t[i])
            || is_white_space(t[i]) || is_ascii_punct(t[i]) by {
            assert(heading_char(t[i]));
        }
    }
}

/// Every heading line among `ls` gives a topic named by it: appending a
/// heading line appends its name, and appending another line changes
/// nothing.
pub proof fn lemma_headings_push(ls: Seq<Seq<char>>, line: Seq<char>)
    ensures
        is_heading(line) ==> headings(ls.push(line)) == headings(ls).push(heading_name(line)),
        !is_heading(line) ==> headings(ls.push(line)) == headings(ls),
{
    assert(ls.push(line).drop_last() =~= ls);
}

/// The names of the heading lines among `ls`, in order.
pub open spec fn headings(ls: Seq<Seq<char>>) -> Seq<Seq<char>>
    decreases ls.len(),
{
    if ls.len() == 0 {
        Seq::empty()
    } else if is_heading(ls.last()) {
        headings(ls.drop_last()).push(heading_name(ls.last()))
    } else {
        headings(ls.drop_last())
    }
}

/// The names of `topics`.
pub open spec fn topic_names(topics: Seq<Topic>) -> Seq<Seq<char>> {
    topics.map_values(|t: Topic| t.name@)
}

/// Whether the line `v[lo..hi]` is a heading.
fn heading_line(v: &Vec<char>, lo: usize, hi: usize) -> (r: bool)
    requires
        lo <= hi <= v@.len(),
        byte_len(v@) <= usize::MAX,
    ensures
        r == is_heading(v@.subrange(lo as int, hi as int)),
{
    let (a, b) = trim_bounds(v, lo, hi);
    let ghost t = v@.subrange(a as int, b as int);
    if a < b && v[a] == '#' {
        assert(t[0] == v@[a as int]);
        return true;
    }
    assert(!(t.len() > 0 && t[0] == '#')) by {
        if t.len() > 0 {
            assert(t[0] == v@[a as int]);
        }
    }
    proof {
        lemma_byte_len_subrange(v@, a as int, b as int);
    }
    let bl = byte_len_of(v, a, b);
    if bl <= 3 || bl >= 80 {
        return false;
    }
    let mut i = a;
    while i < b
        invariant
            a <= i <= b <= v@.len(),
            lo <= hi <= v@.len(),
            t == v@.subrange(a as int, b as int),
            t == trim(v@.subrange(lo as int, hi as int)),
            !(t.len() > 0 && t[0] == '#'),
            3 < byte_len(t) < 80,
            forall|j: int| 0 <= j < i - a ==> heading_char(#[trigger] t[j]),
        decreases b - i,
    {
        let c = v[i];
        if !(is_uppercase(c) || is_whitespace(c) || is_ascii_punctuation(c)) {
            assert(t[i - a] == c);
            assert(!heading_char(t[i - a]));
            return false;
        }
        i = i + 1;
    }
    true
}

/// The topic named by the heading line `v[lo..hi]`.
fn heading_topic(v: &Vec<char>, lo: usize, hi: usize) -> (t: Topic)
    requires
        lo <= hi <= v@.len(),
    ensures
        t.name@ == heading_name(v@.subrange(lo as int, hi as int)),
        t.kind@ == "heading"@,
{
    let (a, b) = trim_bounds(v, lo, hi);
    let c = strip_hashes_from(v, a, b);
    let (d, e) = trim_bounds(v, c, b);
    Topic { name: string_of_range(v, d, e), kind: "heading".to_owned() }
}

/// Builds the tree index of a page: its number, a summary of at most 300
/// bytes (marked `...` when cut), its size in bytes and the names of its
/// heading lines, in order.  A page longer than 300 bytes must have a
/// character boundary at byte 300, where the summary is cut.
pub fn build_simple_tree_index(content: &str, page_num: i32) -> (index: TreeIndex)
    requires
        byte_len(content@) <= usize::MAX,
        byte_len(content@) > SUMMARY_BYTES ==> at_char_boundary(content@, SUMMARY_BYTES as nat),
    ensures
        index.page == page_num,
        index.summary@ == truncated(content@, SUMMARY_BYTES as nat),
        index.char_count == byte_len(content@),
        topic_names(index.topics@) == headings(lines(content@)),
        forall|i: int| 0 <= i < index.topics@.len() ==> (#[trigger] index.topics@[i]).kind@ == "heading"@,
        forall|i: int|
            0 <= i < index.topics@.len() ==> trim(#[trigger] index.topics@[i].name@) == index.topics@[i].name@,
{
    let v = to_chars(content);
    let rs = line_ranges(&v);
    let ghost ls = lines(v@);
    let mut topics: Vec<Topic> = Vec::new();
    let mut k: usize = 0;
    while k < rs.len()
        invariant
            k <= rs@.len(),
            ls == ranges_text(v@, rs@),
            ranges_within(rs@, v@.len()),
            byte_len(v@) <= usize::MAX,
            topic_names(topics@) == headings(ls.take(k as int)),
            forall|i: int| 0 <= i < topics@.len() ==> (#[trigger] topics@[i]).kind@ == "heading"@,
            forall|i: int| 0 <= i < topics@.len() ==> trim(#[trigger] topics@[i].name@) == topics@[i].name@,
        decreases rs@.len() - k,
    {
        let (lo, hi) = rs[k];
        proof {
            assert(ls.take(k + 1).drop_last() =~= ls.take(k as int));
            assert(ls.take(k + 1).last() == v@.subrange(lo as int, hi as int));
        }
        if heading_line(&v, lo, hi) {
            let topic = heading_topic(&v, lo, hi);
            proof {
                lemma_trim_idempotent(strip_hashes(trim(v@.subrange(lo as int, hi as int))));
            }
            topics.push(topic);
            proof {
                assert(topic_names(topics@) =~= topic_names(topics@.drop_last()).push(topic.name@));
            }
        }
        k = k + 1;
    }
    proof {
        assert(ls.take(rs@.len() as int) =~= ls);
    }
    let summary = truncate(content, SUMMARY_BYTES);
    let char_count = content.len();
    proof {
        lemma_byte_len_encode(content@);
    }
    TreeIndex { page: page_num, summary, char_count, topics }
}

} // verus!
