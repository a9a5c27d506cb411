//! Text extraction and chunking of documents: tag stripping, entity
//! decoding, whitespace normalization, paragraphs, headings and snippets.
use vstd::prelude::*;
use crate::text::{is_ws, lemma_trim_start_shape, lemma_trim_start_skip, trim_end, trim_start};
use crate::text::{append_chars, char_views, chars_of, collapse_ws, collapse_ws_chars, contains, contains_chars, copy_range, find_first, has_prefix, join, join_chars, lower_chars, lowercase, replace_all, replace_chars, starts_with, string_of, trim, trim_chars};

verus! {

// ---------------------------------------------------------------------------
// HTML and entities
// ---------------------------------------------------------------------------

/// Whether the end of `s` lies inside a tag: the last angle bracket in `s` is '<'.
pub open spec fn in_tag(s: Seq<char>) -> bool
    decreases s.len(),
{
    if s.len() == 0 {
        false
    } else if s.last() == '<' {
        true
    } else if s.last() == '>' {
        false
    } else {
        in_tag(s.drop_last())
    }
}

/// `s` without its angle brackets and without what lies between '<' and the next '>'.
pub open spec fn strip_tags(s: Seq<char>) -> Seq<char>
    decreases s.len(),
{
    if s.len() == 0 {
        s
    } else if s.last() == '<' || s.last() == '>' || in_tag(s.drop_last()) {
        strip_tags(s.drop_last())
    } else {
        strip_tags(s.drop_last()).push(s.last())
    }
}

/// The five XML entities decoded, one after the other, `&amp;` first.
pub open spec fn decode_entities_spec(s: Seq<char>) -> Seq<char> {
    replace_all(
        replace_all(
            replace_all(replace_all(replace_all(s, "&amp;"@, "&"@), "&lt;"@, "<"@), "&gt;"@, ">"@),
            "&quot;"@,
            "\""@,
        ),
        "&apos;"@,
        "'"@,
    )
}

fn decode_entity_chars(input: &[char]) -> (r: Vec<char>)
    ensures
        r@ == decode_entities_spec(input@),
{
    proof {
        reveal_strlit("&amp;");
        reveal_strlit("&lt;");
        reveal_strlit("&gt;");
        reveal_strlit("&quot;");
        reveal_strlit("&apos;");
    }
    let a = replace_chars(input, chars_of("&amp;").as_slice(), chars_of("&").as_slice());
    let b = replace_chars(a.as_slice(), chars_of("&lt;").as_slice(), chars_of("<").as_slice());
    let c = replace_chars(b.as_slice(), chars_of("&gt;").as_slice(), chars_of(">").as_slice());
    let d = replace_chars(c.as_slice(), chars_of("&quot;").as_slice(), chars_of("\"").as_slice());
    replace_chars(d.as_slice(), chars_of("&apos;").as_slice(), chars_of("'").as_slice())
}

/// `decode_entities`: `&amp;`, `&lt;`, `&gt;`, `&quot;` and `&apos;` decoded in that order.
pub fn decode_entities(input: &str) -> (r: String)
    ensures
        r@ == decode_entities_spec(input@),
{
    let out = decode_entity_chars(chars_of(input).as_slice());
    string_of(out.as_slice())
}

fn strip_tag_chars(input: &[char]) -> (r: Vec<char>)
    ensures
        r@ == strip_tags(input@),
{
    let mut out: Vec<char> = Vec::new();
    let mut inside = false;
    let mut i: usize = 0;
    while i < input.len()
        invariant
            i <= input@.len(),
            out@ == strip_tags(input@.take(i as int)),
            inside == in_tag(input@.take(i as int)),
        decreases input@.len() - i,
    {
        let c = input[i];
        proof {
            assert(input@.take(i + 1).drop_last() =~= input@.take(i as int));
            assert(input@.take(i + 1).last() == c);
        }
        if c == '<' {
            inside = true;
        } else if c == '>' {
            inside = false;
        } else if !inside {
            out.push(c);
        }
        i += 1;
    }
    proof {
        assert(input@.take(input@.len() as int) =~= input@);
    }
    out
}

/// `strip_html_tags`: tags removed, then entities decoded.
pub fn strip_html_tags(input: &str) -> (r: String)
    ensures
        r@ == decode_entities_spec(strip_tags(input@)),
{
    let stripped = strip_tag_chars(chars_of(input).as_slice());
    let out = decode_entity_chars(stripped.as_slice());
    string_of(out.as_slice())
}

/// `normalize_whitespace`: whitespace runs collapsed to one space, ends trimmed.
pub fn normalize_whitespace(input: &str) -> (r: String)
    ensures
        r@ == collapse_ws(input@),
{
    let out = collapse_ws_chars(chars_of(input).as_slice());
    string_of(out.as_slice())
}

// ---------------------------------------------------------------------------
// Lines and paragraphs
// ---------------------------------------------------------------------------

/// `s` cut at every '\n' (always at least one piece).
pub open spec fn split_nl(s: Seq<char>) -> Seq<Seq<char>>
    decreases s.len(),
{
    if s.len() == 0 {
        seq![Seq::<char>::empty()]
    } else {
        let parts = split_nl(s.drop_last());
        if s.last() == '\n' {
            parts.push(Seq::empty())
        } else {
            parts.drop_last().push(parts.last().push(s.last()))
        }
    }
}

pub proof fn lemma_split_nl_nonempty(s: Seq<char>)
    ensures
        split_nl(s).len() >= 1,
    decreases s.len(),
{
    if s.len() > 0 {
        lemma_split_nl_nonempty(s.drop_last());
    }
}

/// A line without one trailing '\r'.
pub open spec fn strip_cr(l: Seq<char>) -> Seq<char> {
    if l.len() > 0 && l.last() == '\r' {
        l.drop_last()
    } else {
        l
    }
}

/// The lines of `s` as `str::lines` gives them: cut at '\n', one trailing
/// '\r' dropped from each, no empty last line after a final '\n'.
pub open spec fn lines_of(s: Seq<char>) -> Seq<Seq<char>> {
    let pieces = if s.len() == 0 {
        Seq::empty()
    } else if s.last() == '\n' {
        split_nl(s).drop_last()
    } else {
        split_nl(s)
    };
    pieces.map_values(|l: Seq<char>| strip_cr(l))
}

/// Groups of consecutive non-blank lines: the finished groups and the open one.
pub open spec fn para_fold(lines: Seq<Seq<char>>) -> (Seq<Seq<Seq<char>>>, Seq<Seq<char>>)
    decreases lines.len(),
{
    if lines.len() == 0 {
        (Seq::empty(), Seq::empty())
    } else {
        let prev = para_fold(lines.drop_last());
        let l = lines.last();
        if trim(l).len() == 0 {
            if prev.1.len() > 0 {
                (prev.0.push(prev.1), Seq::empty())
            } else {
                prev
            }
        } else {
            (prev.0, prev.1.push(l))
        }
    }
}

/// The paragraphs of `content`: "\r\n" turned into "\n", then the runs of
/// non-blank lines, each joined with "\n"; the whole text when there is no
/// such run but the text is not blank.
pub open spec fn paragraphs_of(content: Seq<char>) -> Seq<Seq<char>> {
    let n = replace_all(content, "\r\n"@, "\n"@);
    let f = para_fold(lines_of(n));
    let groups = if f.1.len() > 0 {
        f.0.push(f.1)
    } else {
        f.0
    };
    let ps = groups.map_values(|g: Seq<Seq<char>>| join(g, "\n"@));
    if ps.len() == 0 && trim(n).len() > 0 {
        seq![n]
    } else {
        ps
    }
}

pub(crate) fn split_lines(s: &[char]) -> (r: Vec<Vec<char>>)
    ensures
        char_views(r@) == lines_of(s@),
{
    let ghost pieces_all = split_nl(s@);
    let mut out: Vec<Vec<char>> = Vec::new();
    let mut cur: Vec<char> = Vec::new();
    let mut i: usize = 0;
    proof {
        assert(s@.take(0) =~= Seq::<char>::empty());
    }
    while i < s.len()
        invariant
            i <= s@.len(),
            char_views(out@).push(cur@) == split_nl(s@.take(i as int)),
        decreases s@.len() - i,
    {
        let c = s[i];
        proof {
            assert(s@.take(i + 1).drop_last() =~= s@.take(i as int));
            assert(s@.take(i + 1).last() == c);
        }
        if c == '\n' {
            let ghost before = char_views(out@);
            out.push(cur);
            cur = Vec::new();
            proof {
                assert(char_views(out@) =~= before.push(char_views(out@).last()));
                assert(char_views(out@).push(cur@) =~= split_nl(s@.take(i + 1)));
            }
        } else {
            let ghost before = char_views(out@);
            cur.push(c);
            proof {
                assert(before.push(cur@) =~= split_nl(s@.take(i + 1)));
            }
        }
        i += 1;
    }
    proof {
        assert(s@.take(s@.len() as int) =~= s@);
    }
    let ghost pieces = if s@.len() == 0 {
        Seq::<Seq<char>>::empty()
    } else if s@.last() == '\n' {
        split_nl(s@).drop_last()
    } else {
        split_nl(s@)
    };
    if cur.len() > 0 {
        out.push(cur);
        proof {
            assert(split_nl(s@).last() == cur@);
            assert(s@.len() > 0 && s@.last() != '\n') by {
                if s@.len() == 0 {
                    assert(split_nl(s@) =~= seq![Seq::<char>::empty()]);
                } else if s@.last() == '\n' {
                    assert(split_nl(s@).last() =~= Seq::<char>::empty());
                }
            }
            assert(char_views(out@) =~= pieces);
        }
    } else {
        proof {
            if s@.len() > 0 && s@.last() != '\n' {
                let parts = split_nl(s@.drop_last());
                lemma_split_nl_nonempty(s@.drop_last());
                assert(split_nl(s@).last().len() > 0);
            }
            if s@.len() == 0 {
                assert(split_nl(s@) =~= seq![Seq::<char>::empty()]);
            }
            assert(char_views(out@) =~= pieces);
        }
    }
    let ghost raw = char_views(out@);
    let mut lines: Vec<Vec<char>> = Vec::new();
    let mut k: usize = 0;
    while k < out.len()
        invariant
            k <= out@.len(),
            raw == char_views(out@),
            raw == pieces,
            lines@.len() == k,
            forall|j: int| 0 <= j < k ==> (#[trigger] lines@[j])@ == strip_cr(raw[j]),
        decreases out@.len() - k,
    {
        let l = &out[k];
        let n = l.len();
        proof {
            assert(raw[k as int] == out@[k as int]@);
        }
        if n > 0 && l[n - 1] == '\r' {
            lines.push(copy_range(l.as_slice(), 0, n - 1));
            proof {
                assert(out@[k as int]@.subrange(0, n - 1) =~= out@[k as int]@.drop_last());
            }
        } else {
            lines.push(copy_range(l.as_slice(), 0, n));
            proof {
                assert(out@[k as int]@.subrange(0, n as int) =~= out@[k as int]@);
            }
        }
        k += 1;
    }
    proof {
        assert(char_views(lines@) =~= lines_of(s@));
    }
    lines
}

fn group_paragraphs(lines: &Vec<Vec<char>>) -> (r: Vec<Vec<char>>)
    ensures
        char_views(r@) == ({
            let f = para_fold(char_views(lines@));
            let groups = if f.1.len() > 0 { f.0.push(f.1) } else { f.0 };
            groups.map_values(|g: Seq<Seq<char>>| join(g, "\n"@))
        }),
{
    let ghost lv = char_views(lines@);
    let nl = chars_of("\n");
    let mut done: Vec<Vec<char>> = Vec::new();
    let mut cur: Vec<Vec<char>> = Vec::new();
    let ghost mut groups: Seq<Seq<Seq<char>>> = Seq::empty();
    let mut i: usize = 0;
    while i < lines.len()
        invariant
            i <= lines@.len(),
            lv == char_views(lines@),
            nl@ == "\n"@,
            para_fold(lv.take(i as int)) == (groups, char_views(cur@)),
            char_views(done@) == groups.map_values(|g: Seq<Seq<char>>| join(g, "\n"@)),
        decreases lines@.len() - i,
    {
        proof {
            assert(lv.take(i + 1).drop_last() =~= lv.take(i as int));
            assert(lv.take(i + 1).last() == lines@[i as int]@);
        }
        let t = trim_chars(lines[i].as_slice());
        if t.len() == 0 {
            if cur.len() > 0 {
                let joined = join_chars(&cur, nl.as_slice());
                let ghost before = char_views(done@);
                done.push(joined);
                proof {
                    let g2 = groups.push(char_views(cur@));
                    assert(char_views(done@) =~= before.push(join(char_views(cur@), "\n"@)));
                    assert(g2.map_values(|g: Seq<Seq<char>>| join(g, "\n"@)) =~= groups.map_values(|g: Seq<Seq<char>>| join(g, "\n"@)).push(join(char_views(cur@), "\n"@)));
                    groups = g2;
                }
                cur = Vec::new();
                proof {
                    assert(char_views(cur@) =~= Seq::<Seq<char>>::empty());
                }
            }
        } else {
            let ghost before = char_views(cur@);
            cur.push(lines[i].clone());
            proof {
                assert(char_views(cur@) =~= before.push(lines@[i as int]@));
            }
        }
        i += 1;
    }
    proof {
        assert(lv.take(lines@.len() as int) =~= lv);
    }
    if cur.len() > 0 {
        let joined = join_chars(&cur, nl.as_slice());
        let ghost before = char_views(done@);
        done.push(joined);
        proof {
            let g2 = groups.push(char_views(cur@));
            assert(char_views(done@) =~= before.push(join(char_views(cur@), "\n"@)));
            assert(g2.map_values(|g: Seq<Seq<char>>| join(g, "\n"@)) =~= groups.map_values(|g: Seq<Seq<char>>| join(g, "\n"@)).push(join(char_views(cur@), "\n"@)));
        }
    }
    done
}

fn paragraph_chars(content: &[char]) -> (r: Vec<Vec<char>>)
    ensures
        char_views(r@) == paragraphs_of(content@),
{
    proof {
        reveal_strlit("\r\n");
        reveal_strlit("\n");
    }
    let normalized = replace_chars(content, chars_of("\r\n").as_slice(), chars_of("\n").as_slice());
    let lines = split_lines(normalized.as_slice());
    let ps = group_paragraphs(&lines);
    if ps.len() == 0 && trim_chars(normalized.as_slice()).len() > 0 {
        let mut one: Vec<Vec<char>> = Vec::new();
        one.push(normalized);
        proof {
            assert(char_views(one@) =~= seq![normalized@]);
        }
        one
    } else {
        ps
    }
}

/// `split_paragraphs`: the paragraphs of `content` (see `paragraphs_of`).
pub fn split_paragraphs(content: &str) -> (r: Vec<String>)
    ensures
        crate::text::string_views(r@) == paragraphs_of(content@),
{
    let ps = paragraph_chars(chars_of(content).as_slice());
    crate::search::strings_of(&ps)
}


// ---------------------------------------------------------------------------
// Headings, snippets and chunks
// ---------------------------------------------------------------------------

/// `s` without its leading '#' characters.
pub open spec fn skip_hashes(s: Seq<char>) -> Seq<char>
    decreases s.len(),
{
    if s.len() > 0 && s[0] == '#' {
        skip_hashes(s.drop_first())
    } else {
        s
    }
}

/// The first line of `p` ("" when there is none).
pub open spec fn first_line(p: Seq<char>) -> Seq<char> {
    if lines_of(p).len() > 0 {
        lines_of(p)[0]
    } else {
        Seq::empty()
    }
}

/// The heading of a paragraph: the text of a leading Markdown heading on its
/// first line, or else the file name.
pub open spec fn heading_of(paragraph: Seq<char>, file_name: Seq<char>) -> Seq<char> {
    let fl = trim(first_line(paragraph));
    if fl.len() > 0 && fl[0] == '#' && trim(skip_hashes(fl.drop_first())).len() > 0 {
        trim(skip_hashes(fl.drop_first()))
    } else {
        file_name
    }
}

fn skip_hash_chars(s: &[char]) -> (r: Vec<char>)
    ensures
        r@ == skip_hashes(s@),
{
    let mut i: usize = 0;
    proof {
        assert(s@.skip(0) =~= s@);
    }
    while i < s.len() && s[i] == '#'
        invariant
            i <= s@.len(),
            skip_hashes(s@) == skip_hashes(s@.skip(i as int)),
        decreases s@.len() - i,
    {
        proof {
            assert(s@.skip(i as int).drop_first() =~= s@.skip(i + 1));
        }
        i += 1;
    }
    proof {
        assert(s@.skip(i as int) =~= s@.subrange(i as int, s@.len() as int));
        assert(skip_hashes(s@.skip(i as int)) == s@.skip(i as int));
    }
    copy_range(s, i, s.len())
}

fn heading_chars(paragraph: &[char], file_name: &[char]) -> (r: Vec<char>)
    ensures
        r@ == heading_of(paragraph@, file_name@),
{
    let lines = split_lines(paragraph);
    let first = if lines.len() > 0 {
        proof {
            assert(char_views(lines@)[0] == lines@[0]@);
        }
        copy_range(lines[0].as_slice(), 0, lines[0].len())
    } else {
        Vec::new()
    };
    proof {
        if lines@.len() > 0 {
            assert(lines@[0]@.subrange(0, lines@[0]@.len() as int) =~= lines@[0]@);
        }
        assert(first@ == first_line(paragraph@));
    }
    let fl = trim_chars(first.as_slice());
    if fl.len() > 0 && fl[0] == '#' {
        let rest = copy_range(fl.as_slice(), 1, fl.len());
        proof {
            assert(rest@ =~= fl@.drop_first());
        }
        let h = trim_chars(skip_hash_chars(rest.as_slice()).as_slice());
        if h.len() > 0 {
            return h;
        }
    }
    copy_range(file_name, 0, file_name.len())
}

/// `derive_heading`: a Markdown heading on the paragraph's first line, else
/// the file name (whether or not the paragraph comes first).
pub fn derive_heading(paragraph: &str, file_name: &str, is_first: bool) -> (r: String)
    ensures
        r@ == heading_of(paragraph@, file_name@),
{
    let _ = is_first;
    let fc = chars_of(file_name);
    let h = heading_chars(chars_of(paragraph).as_slice(), fc.as_slice());
    proof {
        assert(fc@.subrange(0, fc@.len() as int) =~= fc@);
    }
    string_of(h.as_slice())
}

/// `truncate_snippet`: at most `limit` characters, then an ellipsis when cut.
pub fn truncate_snippet(input: &str, limit: usize) -> (r: String)
    ensures
        r@ == crate::ranking::truncated(input@, limit as nat),
{
    crate::ranking::truncate_by_chars(input, limit)
}

/// A chunk of a document as the Rust extractor produces it.
#[derive(Debug, Clone)]
pub struct ChunkRecord {
    pub heading: String,
    pub snippet: String,
    pub paragraph: Option<i64>,
    pub page: Option<i64>,
    pub block_indexes: Vec<usize>,
}

/// The (heading, snippet, paragraph number) of each chunk, paragraph by
/// paragraph; blank paragraphs give none.
pub open spec fn chunk_fold(ps: Seq<Seq<char>>, file_name: Seq<char>, limit: nat) -> Seq<(Seq<char>, Seq<char>, int)>
    decreases ps.len(),
{
    if ps.len() == 0 {
        Seq::empty()
    } else {
        let prev = chunk_fold(ps.drop_last(), file_name, limit);
        let p = trim(ps.last());
        if p.len() == 0 {
            prev
        } else {
            prev.push((heading_of(p, file_name), crate::ranking::truncated(collapse_ws(p), limit), ps.len() as int))
        }
    }
}

/// The chunks of a document: one per non-blank paragraph, or one for the
/// whole text when no paragraph gives a chunk but the text is not blank.
pub open spec fn chunks_of(content: Seq<char>, file_name: Seq<char>) -> Seq<(Seq<char>, Seq<char>, int)> {
    let cs = chunk_fold(paragraphs_of(content), file_name, 240);
    if cs.len() == 0 && trim(content).len() > 0 {
        seq![(file_name, crate::ranking::truncated(collapse_ws(content), 240), 1)]
    } else {
        cs
    }
}

/// The (heading, snippet, paragraph) of each chunk record.
pub open spec fn chunk_views(v: Seq<ChunkRecord>) -> Seq<(Seq<char>, Seq<char>, int)> {
    v.map_values(|c: ChunkRecord| (c.heading@, c.snippet@, match c.paragraph { Some(p) => p as int, None => 0 }))
}

/// The chunks of a document's content (see `chunks_of`); each has a
/// paragraph number, no page and no blocks.
pub fn chunk_text(content: &str, file_name: &str) -> (r: Vec<ChunkRecord>)
    requires
        content@.len() < i64::MAX,
    ensures
        chunk_views(r@) == chunks_of(content@, file_name@),
        forall|i: int| 0 <= i < r@.len() ==> (#[trigger] r@[i]).paragraph is Some && r@[i].page is None
            && r@[i].block_indexes@.len() == 0,
{
    let cc = chars_of(content);
    let fc = chars_of(file_name);
    let ps = paragraph_chars(cc.as_slice());
    let ghost pv = char_views(ps@);
    let mut out: Vec<ChunkRecord> = Vec::new();
    let mut i: usize = 0;
    proof {
        lemma_paragraph_count(cc@);
    }
    while i < ps.len()
        invariant
            i <= ps@.len(),
            ps@.len() <= content@.len() + 1,
            content@.len() < i64::MAX,
            pv == char_views(ps@),
            fc@ == file_name@,
            chunk_views(out@) == chunk_fold(pv.take(i as int), fc@, 240),
            forall|k: int| 0 <= k < out@.len() ==> (#[trigger] out@[k]).paragraph is Some && out@[k].page is None
                && out@[k].block_indexes@.len() == 0,
        decreases ps@.len() - i,
    {
        proof {
            assert(pv.take(i + 1).drop_last() =~= pv.take(i as int));
            assert(pv.take(i + 1).last() == ps@[i as int]@);
        }
        let p = trim_chars(ps[i].as_slice());
        if p.len() > 0 {
            let heading = heading_chars(p.as_slice(), fc.as_slice());
            let collapsed = collapse_ws_chars(p.as_slice());
            let snippet = crate::ranking::truncate_by_chars(string_of(collapsed.as_slice()).as_str(), 240);
            let ghost before = chunk_views(out@);
            out.push(ChunkRecord {
                heading: string_of(heading.as_slice()),
                snippet,
                paragraph: Some((i + 1) as i64),
                page: None,
                block_indexes: Vec::new(),
            });
            proof {
                assert(chunk_views(out@) =~= before.push((heading@, snippet@, i + 1)));
            }
        }
        i += 1;
    }
    proof {
        assert(pv.take(ps@.len() as int) =~= pv);
    }
    if out.len() == 0 && trim_chars(cc.as_slice()).len() > 0 {
        let collapsed = collapse_ws_chars(cc.as_slice());
        let snippet = crate::ranking::truncate_by_chars(string_of(collapsed.as_slice()).as_str(), 240);
        out.push(ChunkRecord {
            heading: file_name.to_owned(),
            snippet,
            paragraph: Some(1),
            page: None,
            block_indexes: Vec::new(),
        });
        proof {
            assert(chunk_views(out@) =~= seq![(file_name@, snippet@, 1int)]);
        }
    }
    out
}

proof fn lemma_chunk_fold_shape(ps: Seq<Seq<char>>, file_name: Seq<char>, limit: nat)
    ensures
        forall|i: int| 0 <= i < chunk_fold(ps, file_name, limit).len() ==> {
            let c = #[trigger] chunk_fold(ps, file_name, limit)[i];
            1 <= c.2 <= ps.len() && c.1.len() <= limit + 1
        },
        forall|i: int, j: int| 0 <= i < j < chunk_fold(ps, file_name, limit).len() ==>
            (#[trigger] chunk_fold(ps, file_name, limit)[i]).2 < (#[trigger] chunk_fold(ps, file_name, limit)[j]).2,
    decreases ps.len(),
{
    if ps.len() > 0 {
        lemma_chunk_fold_shape(ps.drop_last(), file_name, limit);
        let prev = chunk_fold(ps.drop_last(), file_name, limit);
        let cur = chunk_fold(ps, file_name, limit);
        let p = trim(ps.last());
        if p.len() > 0 {
            let t = collapse_ws(p);
            let e = (heading_of(p, file_name), crate::ranking::truncated(t, limit), ps.len() as int);
            assert(cur == prev.push(e));
            assert(e.1.len() <= limit + 1) by {
                if t.len() > limit {
                    assert(t.take(limit as int).push('…').len() == limit + 1);
                }
            }
            assert forall|i: int| 0 <= i < cur.len() implies {
                let c = #[trigger] cur[i];
                1 <= c.2 <= ps.len() && c.1.len() <= limit + 1
            } by {
                if i < prev.len() {
                    assert(cur[i] == prev[i]);
                }
            }
            assert forall|i: int, j: int| 0 <= i < j < cur.len() implies (#[trigger] cur[i]).2 < (#[trigger] cur[j]).2 by {
                assert(cur[i] == prev[i]);
                if j < prev.len() {
                    assert(cur[j] == prev[j]);
                }
            }
        }
    }
}

/// Every character of `s` is whitespace.
pub open spec fn all_ws(s: Seq<char>) -> bool {
    forall|i: int| 0 <= i < s.len() ==> is_ws(#[trigger] s[i])
}

proof fn lemma_trim_start_empty(s: Seq<char>)
    ensures
        trim_start(s).len() == 0 ==> all_ws(s),
    decreases s.len(),
{
    if s.len() > 0 && is_ws(s[0]) {
        lemma_trim_start_empty(s.drop_first());
        if trim_start(s).len() == 0 {
            assert forall|i: int| 0 <= i < s.len() implies is_ws(#[trigger] s[i]) by {
                if i > 0 {
                    assert(s[i] == s.drop_first()[i - 1]);
                }
            }
        }
    }
}

proof fn lemma_trim_end_empty(s: Seq<char>)
    ensures
        trim_end(s).len() == 0 ==> all_ws(s),
    decreases s.len(),
{
    if s.len() > 0 && is_ws(s.last()) {
        lemma_trim_end_empty(s.drop_last());
        if trim_end(s).len() == 0 {
            assert forall|i: int| 0 <= i < s.len() implies is_ws(#[trigger] s[i]) by {
                if i < s.len() - 1 {
                    assert(s[i] == s.drop_last()[i]);
                }
            }
        }
    }
}

/// Text is blank exactly when every character of it is whitespace.
pub proof fn lemma_blank_iff_all_ws(s: Seq<char>)
    ensures
        trim(s).len() == 0 <==> all_ws(s),
{
    if all_ws(s) {
        lemma_trim_start_skip(s, s.len() as int);
        assert(s.skip(s.len() as int) =~= Seq::<char>::empty());
    }
    let x = trim_start(s);
    lemma_trim_end_empty(x);
    lemma_trim_start_shape(s);
    lemma_trim_start_empty(s);
}

proof fn lemma_replace_crlf_ws(s: Seq<char>)
    requires
        all_ws(s),
    ensures
        all_ws(replace_all(s, "\r\n"@, "\n"@)),
    decreases s.len(),
{
    reveal_strlit("\r\n");
    reveal_strlit("\n");
    if s.len() > 0 {
        if starts_with(s, "\r\n"@) {
            let t = s.skip(2);
            assert forall|i: int| 0 <= i < t.len() implies is_ws(#[trigger] t[i]) by {
                assert(t[i] == s[i + 2]);
            }
            lemma_replace_crlf_ws(t);
            let r = replace_all(t, "\r\n"@, "\n"@);
            assert(replace_all(s, "\r\n"@, "\n"@) == "\n"@ + r);
            assert forall|i: int| 0 <= i < ("\n"@ + r).len() implies is_ws(#[trigger] ("\n"@ + r)[i]) by {
                if i > 0 {
                    assert(("\n"@ + r)[i] == r[i - 1]);
                }
            }
        } else {
            let t = s.drop_first();
            assert forall|i: int| 0 <= i < t.len() implies is_ws(#[trigger] t[i]) by {
                assert(t[i] == s[i + 1]);
            }
            lemma_replace_crlf_ws(t);
            let r = replace_all(t, "\r\n"@, "\n"@);
            assert forall|i: int| 0 <= i < (seq![s[0]] + r).len() implies is_ws(#[trigger] (seq![s[0]] + r)[i]) by {
                if i > 0 {
                    assert((seq![s[0]] + r)[i] == r[i - 1]);
                }
            }
        }
    }
}

proof fn lemma_split_nl_ws(s: Seq<char>)
    requires
        all_ws(s),
    ensures
        forall|j: int| 0 <= j < split_nl(s).len() ==> all_ws(#[trigger] split_nl(s)[j]),
    decreases s.len(),
{
    if s.len() > 0 {
        let init = s.drop_last();
        assert forall|i: int| 0 <= i < init.len() implies is_ws(#[trigger] init[i]) by {
            assert(init[i] == s[i]);
        }
        lemma_split_nl_ws(init);
        lemma_split_nl_nonempty(init);
        let parts = split_nl(init);
        let cur = split_nl(s);
        if s.last() == '\n' {
            assert forall|j: int| 0 <= j < cur.len() implies all_ws(#[trigger] cur[j]) by {
                if j < parts.len() {
                    assert(cur[j] == parts[j]);
                }
            }
        } else {
            let l = parts.last().push(s.last());
            assert(all_ws(parts[parts.len() - 1]));
            assert forall|i: int| 0 <= i < l.len() implies is_ws(#[trigger] l[i]) by {
                if i < l.len() - 1 {
                    assert(l[i] == parts.last()[i]);
                }
            }
            assert forall|j: int| 0 <= j < cur.len() implies all_ws(#[trigger] cur[j]) by {
                if j < parts.len() - 1 {
                    assert(cur[j] == parts[j]);
                } else {
                    assert(cur[j] == l);
                }
            }
        }
    }
}

proof fn lemma_lines_blank(n: Seq<char>)
    requires
        all_ws(n),
    ensures
        forall|j: int| 0 <= j < lines_of(n).len() ==> trim(#[trigger] lines_of(n)[j]).len() == 0,
{
    lemma_split_nl_ws(n);
    let pieces = if n.len() == 0 {
        Seq::empty()
    } else if n.last() == '\n' {
        split_nl(n).drop_last()
    } else {
        split_nl(n)
    };
    assert forall|j: int| 0 <= j < lines_of(n).len() implies trim(#[trigger] lines_of(n)[j]).len() == 0 by {
        let p = pieces[j];
        assert(all_ws(p)) by {
            assert(p == split_nl(n)[j]);
        }
        let l = strip_cr(p);
        assert(lines_of(n)[j] == l);
        assert forall|i: int| 0 <= i < l.len() implies is_ws(#[trigger] l[i]) by {
            assert(l[i] == p[i]);
        }
        lemma_blank_iff_all_ws(l);
    }
}

proof fn lemma_para_fold_blank(lines: Seq<Seq<char>>)
    requires
        forall|j: int| 0 <= j < lines.len() ==> trim(#[trigger] lines[j]).len() == 0,
    ensures
        para_fold(lines).0.len() == 0,
        para_fold(lines).1.len() == 0,
    decreases lines.len(),
{
    if lines.len() > 0 {
        let init = lines.drop_last();
        assert forall|j: int| 0 <= j < init.len() implies trim(#[trigger] init[j]).len() == 0 by {
            assert(init[j] == lines[j]);
        }
        lemma_para_fold_blank(init);
        assert(trim(lines[lines.len() - 1]).len() == 0);
    }
}

/// Blank text has no paragraphs, and so no chunks.
proof fn lemma_blank_no_chunks(content: Seq<char>, file_name: Seq<char>)
    requires
        trim(content).len() == 0,
    ensures
        chunks_of(content, file_name).len() == 0,
{
    lemma_blank_iff_all_ws(content);
    lemma_replace_crlf_ws(content);
    let n = replace_all(content, "\r\n"@, "\n"@);
    lemma_blank_iff_all_ws(n);
    lemma_lines_blank(n);
    lemma_para_fold_blank(lines_of(n));
    assert(paragraphs_of(content).len() == 0);
}

/// The chunks of a document: text gives at least one chunk exactly when it is
/// not blank; each snippet holds at most 241 characters (240 and an ellipsis);
/// the paragraph numbers start at 1 and strictly increase from chunk to chunk.
pub proof fn law_chunk_shape(content: Seq<char>, file_name: Seq<char>)
    ensures
        trim(content).len() > 0 <==> chunks_of(content, file_name).len() > 0,
        forall|i: int| 0 <= i < chunks_of(content, file_name).len() ==>
            (#[trigger] chunks_of(content, file_name)[i]).1.len() <= 241 && chunks_of(content, file_name)[i].2 >= 1,
        forall|i: int, j: int| 0 <= i < j < chunks_of(content, file_name).len() ==>
            (#[trigger] chunks_of(content, file_name)[i]).2 < (#[trigger] chunks_of(content, file_name)[j]).2,
{
    lemma_chunk_fold_shape(paragraphs_of(content), file_name, 240);
    if trim(content).len() == 0 {
        lemma_blank_no_chunks(content, file_name);
    }
}

pub proof fn lemma_paragraph_count(content: Seq<char>)
    ensures
        paragraphs_of(content).len() <= content.len() + 1,
{
    let n = replace_all(content, "\r\n"@, "\n"@);
    lemma_replace_shrinks(content);
    lemma_lines_count(n);
    lemma_para_fold_count(lines_of(n));
}

proof fn lemma_replace_shrinks(s: Seq<char>)
    ensures
        replace_all(s, "\r\n"@, "\n"@).len() <= s.len(),
    decreases s.len(),
{
    reveal_strlit("\r\n");
    reveal_strlit("\n");
    if s.len() > 0 {
        if starts_with(s, "\r\n"@) {
            lemma_replace_shrinks(s.skip(2));
        } else {
            lemma_replace_shrinks(s.drop_first());
        }
    }
}

proof fn lemma_split_nl_count(s: Seq<char>)
    ensures
        split_nl(s).len() <= s.len() + 1,
    decreases s.len(),
{
    if s.len() > 0 {
        lemma_split_nl_count(s.drop_last());
        lemma_split_nl_nonempty(s.drop_last());
    }
}

proof fn lemma_lines_count(s: Seq<char>)
    ensures
        lines_of(s).len() <= s.len(),
{
    lemma_split_nl_count(s);
    if s.len() > 0 && s.last() != '\n' {
        lemma_split_nl_count(s.drop_last());
        lemma_split_nl_nonempty(s.drop_last());
    }
}

proof fn lemma_para_fold_count(lines: Seq<Seq<char>>)
    ensures
        para_fold(lines).0.len() + (if para_fold(lines).1.len() > 0 { 1int } else { 0 }) <= lines.len(),
    decreases lines.len(),
{
    if lines.len() > 0 {
        lemma_para_fold_count(lines.drop_last());
    }
}


// ---------------------------------------------------------------------------
// Word documents and converter output
// ---------------------------------------------------------------------------

/// The lowercase text shows Word XML markup rather than document text.
pub open spec fn is_xml_noise(text: Seq<char>) -> bool {
    let l = lowercase(text);
    ||| contains(l, "<w:"@)
    ||| contains(l, "</w:"@)
    ||| contains(l, "xmlns:"@)
    ||| (starts_with(l, "<"@) && contains(l, ">"@) && (contains(l, "w:"@) || contains(l, "xml"@)))
}

/// `looks_like_docx_xml_noise`.
pub fn looks_like_docx_xml_noise(text: &str) -> (r: bool)
    ensures
        r == is_xml_noise(text@),
{
    let l = lower_chars(chars_of(text).as_slice());
    if contains_chars(l.as_slice(), chars_of("<w:").as_slice()) || contains_chars(
        l.as_slice(),
        chars_of("</w:").as_slice(),
    ) || contains_chars(l.as_slice(), chars_of("xmlns:").as_slice()) {
        return true;
    }
    has_prefix(l.as_slice(), chars_of("<").as_slice()) && contains_chars(l.as_slice(), chars_of(">").as_slice())
        && (contains_chars(l.as_slice(), chars_of("w:").as_slice()) || contains_chars(
        l.as_slice(),
        chars_of("xml").as_slice(),
    ))
}

/// The text of a Word text node: entities decoded, whitespace collapsed;
/// empty when that is blank or looks like markup.
pub open spec fn clean_text(input: Seq<char>) -> Seq<char> {
    let cleaned = collapse_ws(decode_entities_spec(input));
    if cleaned.len() == 0 || is_xml_noise(cleaned) {
        Seq::empty()
    } else {
        cleaned
    }
}

fn clean_docx_chars(input: &[char]) -> (r: Vec<char>)
    ensures
        r@ == clean_text(input@),
{
    let decoded = decode_entity_chars(input);
    let cleaned = collapse_ws_chars(decoded.as_slice());
    if cleaned.len() == 0 || looks_like_docx_xml_noise(string_of(cleaned.as_slice()).as_str()) {
        Vec::new()
    } else {
        cleaned
    }
}

/// `clean_docx_text`.
pub fn clean_docx_text(input: &str) -> (r: String)
    ensures
        r@ == clean_text(input@),
{
    let out = clean_docx_chars(chars_of(input).as_slice());
    string_of(out.as_slice())
}

/// The text of the `<w:t ...>...</w:t>` nodes of a Word document body from
/// position `pos` on, each cleaned (after one more decoding) and followed by a
/// newline; blank nodes are skipped and an unclosed node ends the text.
pub open spec fn xml_text_from(xml: Seq<char>, pos: int) -> Seq<char>
    decreases xml.len() + 1 - pos,
{
    match crate::text::first_occ(xml, "<w:t"@, pos) {
        None => Seq::empty(),
        Some(s) => match crate::text::first_occ(xml, ">"@, s + 4) {
            None => Seq::empty(),
            Some(t) => match crate::text::first_occ(xml, "</w:t>"@, t + 1) {
                None => Seq::empty(),
                Some(e) => {
                    if pos < e + 6 && e + 6 <= xml.len() + 1 {
                        let piece = clean_text(decode_entities_spec(xml.subrange(t + 1, e)));
                        (if piece.len() > 0 {
                            piece.push('\n')
                        } else {
                            Seq::empty()
                        }) + xml_text_from(xml, e + 6)
                    } else {
                        Seq::empty()
                    }
                },
            },
        },
    }
}

/// `extract_xml_text_nodes`: the text of the Word text nodes of `xml`.
pub fn extract_xml_text_nodes(xml: &str) -> (r: String)
    ensures
        r@ == xml_text_from(xml@, 0),
{
    proof {
        reveal_strlit("<w:t");
        reveal_strlit(">");
        reveal_strlit("</w:t>");
    }
    let x = chars_of(xml);
    let open_tag = chars_of("<w:t");
    let gt = chars_of(">");
    let close_tag = chars_of("</w:t>");
    let mut out: Vec<char> = Vec::new();
    let mut pos: usize = 0;
    let xl = x.len();
    proof {
        assert(out@ + xml_text_from(x@, 0) =~= xml_text_from(x@, 0));
    }
    loop
        invariant_except_break
            pos <= x@.len() + 1,
            xl == x@.len(),
            x@ == xml@,
            open_tag@ == "<w:t"@,
            gt@ == ">"@,
            close_tag@ == "</w:t>"@,
            open_tag@.len() == 4,
            gt@.len() == 1,
            close_tag@.len() == 6,
            out@ + xml_text_from(x@, pos as int) == xml_text_from(x@, 0),
        ensures
            out@ == xml_text_from(xml@, 0),
        decreases x@.len() + 1 - pos,
    {
        let ghost p0 = pos;
        let s = match find_first(x.as_slice(), open_tag.as_slice(), pos) {
            None => {
                proof {
                    assert(xml_text_from(x@, pos as int) =~= Seq::<char>::empty());
                    assert(out@ + Seq::<char>::empty() =~= out@);
                }
                break;
            },
            Some(s) => s,
        };
        let t = match find_first(x.as_slice(), gt.as_slice(), s + 4) {
            None => {
                proof {
                    assert(xml_text_from(x@, pos as int) =~= Seq::<char>::empty());
                    assert(out@ + Seq::<char>::empty() =~= out@);
                }
                break;
            },
            Some(t) => t,
        };
        let e = match find_first(x.as_slice(), close_tag.as_slice(), t + 1) {
            None => {
                proof {
                    assert(xml_text_from(x@, pos as int) =~= Seq::<char>::empty());
                    assert(out@ + Seq::<char>::empty() =~= out@);
                }
                break;
            },
            Some(e) => e,
        };
        let inner = copy_range(x.as_slice(), t + 1, e);
        let piece = clean_docx_chars(decode_entity_chars(inner.as_slice()).as_slice());
        let ghost before = out@;
        if piece.len() > 0 {
            append_chars(&mut out, piece.as_slice());
            out.push('\n');
        }
        proof {
            let chunk = if piece@.len() > 0 { piece@.push('\n') } else { Seq::<char>::empty() };
            assert(out@ =~= before + chunk);
            assert(before + (chunk + xml_text_from(x@, e + 6)) =~= out@ + xml_text_from(x@, e + 6));
        }
        pos = e + 6;
    }
    string_of(out.as_slice())
}

/// The converter's output reports a failure.
pub open spec fn is_textutil_error(text: Seq<char>) -> bool {
    let l = lowercase(text);
    ||| starts_with(l, "error reading "@)
    ||| contains(l, "the file isn’t in the correct format"@)
    ||| contains(l, "the file isn't in the correct format"@)
}

/// `looks_like_textutil_error_output`.
pub fn looks_like_textutil_error_output(text: &str) -> (r: bool)
    ensures
        r == is_textutil_error(text@),
{
    let l = lower_chars(chars_of(text).as_slice());
    has_prefix(l.as_slice(), chars_of("error reading ").as_slice()) || contains_chars(
        l.as_slice(),
        chars_of("the file isn’t in the correct format").as_slice(),
    ) || contains_chars(l.as_slice(), chars_of("the file isn't in the correct format").as_slice())
}


// ---------------------------------------------------------------------------
// Which files and directories are scanned
// ---------------------------------------------------------------------------

/// `a` and `b` are equal up to ASCII case.
pub open spec fn eq_ascii_case(a: Seq<char>, b: Seq<char>) -> bool {
    a.len() == b.len() && forall|i: int| 0 <= i < a.len() ==> crate::search::ascii_lower(#[trigger] a[i])
        == crate::search::ascii_lower(b[i])
}

/// `str::eq_ignore_ascii_case`.
pub fn eq_ignore_ascii_case(a: &str, b: &str) -> (r: bool)
    ensures
        r == eq_ascii_case(a@, b@),
{
    let x = chars_of(a);
    let y = chars_of(b);
    if x.len() != y.len() {
        return false;
    }
    let mut i: usize = 0;
    while i < x.len()
        invariant
            i <= x@.len() == y@.len(),
            x@ == a@,
            y@ == b@,
            forall|k: int| 0 <= k < i ==> crate::search::ascii_lower(#[trigger] x@[k]) == crate::search::ascii_lower(y@[k]),
        decreases x@.len() - i,
    {
        if crate::search::to_ascii_lower(x[i]) != crate::search::to_ascii_lower(y[i]) {
            return false;
        }
        i += 1;
    }
    true
}

/// Directory names that are never scanned.
pub open spec fn skipped_dirs() -> Seq<Seq<char>> {
    seq![".git"@, "node_modules"@, "target"@, "Library"@, "Caches"@, "Application Support"@]
}

/// A directory that the scan does not enter: a built-in or configured
/// excluded name (ignoring ASCII case), or a hidden directory.
pub open spec fn skip_dir(name: Seq<char>, exclude_dirs: Seq<Seq<char>>) -> bool {
    ||| exists|i: int| 0 <= i < skipped_dirs().len() && eq_ascii_case(#[trigger] skipped_dirs()[i], name)
    ||| exists|i: int| 0 <= i < exclude_dirs.len() && eq_ascii_case(#[trigger] exclude_dirs[i], name)
    ||| (name.len() > 0 && name[0] == '.')
}

fn any_eq_ascii_case(list: &Vec<String>, name: &str) -> (r: bool)
    ensures
        r == exists|i: int| 0 <= i < list@.len() && eq_ascii_case(#[trigger] crate::text::string_views(list@)[i], name@),
{
    let ghost lv = crate::text::string_views(list@);
    let mut i: usize = 0;
    while i < list.len()
        invariant
            i <= list@.len(),
            lv == crate::text::string_views(list@),
            forall|k: int| 0 <= k < i ==> !eq_ascii_case(#[trigger] lv[k], name@),
        decreases list@.len() - i,
    {
        proof {
            assert(lv[i as int] == list@[i as int]@);
        }
        if eq_ignore_ascii_case(list[i].as_str(), name) {
            return true;
        }
        i += 1;
    }
    false
}

fn skipped_dir_list() -> (r: Vec<String>)
    ensures
        crate::text::string_views(r@) == skipped_dirs(),
{
    let mut v: Vec<String> = Vec::new();
    v.push(".git".to_owned());
    v.push("node_modules".to_owned());
    v.push("target".to_owned());
    v.push("Library".to_owned());
    v.push("Caches".to_owned());
    v.push("Application Support".to_owned());
    proof {
        assert(crate::text::string_views(v@) =~= skipped_dirs());
    }
    v
}

/// `should_skip_directory`.
pub fn should_skip_directory(name: &str, exclude_dirs: &Vec<String>) -> (r: bool)
    ensures
        r == skip_dir(name@, crate::text::string_views(exclude_dirs@)),
{
    let builtin = skipped_dir_list();
    let n = chars_of(name);
    any_eq_ascii_case(&builtin, name) || any_eq_ascii_case(exclude_dirs, name) || (n.len() > 0 && n[0]
        == '.')
}

/// The extensions that are indexed.
pub open spec fn supported_exts() -> Seq<Seq<char>> {
    seq![
        "txt"@, "md"@, "markdown"@, "html"@, "htm"@, "docx"@, "log"@, "toml"@, "json"@, "yaml"@,
        "yml"@, "xml"@, "csv"@, "rs"@, "js"@, "ts"@, "tsx"@, "jsx"@, "py"@,
    ]
}

fn supported_ext_list() -> (r: Vec<String>)
    ensures
        crate::text::string_views(r@) == supported_exts(),
{
    let mut v: Vec<String> = Vec::new();
    v.push("txt".to_owned());
    v.push("md".to_owned());
    v.push("markdown".to_owned());
    v.push("html".to_owned());
    v.push("htm".to_owned());
    v.push("docx".to_owned());
    v.push("log".to_owned());
    v.push("toml".to_owned());
    v.push("json".to_owned());
    v.push("yaml".to_owned());
    v.push("yml".to_owned());
    v.push("xml".to_owned());
    v.push("csv".to_owned());
    v.push("rs".to_owned());
    v.push("js".to_owned());
    v.push("ts".to_owned());
    v.push("tsx".to_owned());
    v.push("jsx".to_owned());
    v.push("py".to_owned());
    proof {
        assert(crate::text::string_views(v@) =~= supported_exts());
    }
    v
}

/// A file with extension `ext` (already lowercase) is indexed: the extension
/// is supported and not excluded (ignoring ASCII case).
pub open spec fn supported_ext(ext: Seq<char>, exclude_exts: Seq<Seq<char>>) -> bool {
    supported_exts().contains(ext) && !exists|i: int| 0 <= i < exclude_exts.len() && eq_ascii_case(
        #[trigger] exclude_exts[i],
        ext,
    )
}

/// Whether `ext` is an indexed extension under the excluded list.
pub fn is_supported_extension(ext: &str, exclude_exts: &Vec<String>) -> (r: bool)
    ensures
        r == supported_ext(ext@, crate::text::string_views(exclude_exts@)),
{
    let list = supported_ext_list();
    let e = chars_of(ext);
    let mut found = false;
    let mut i: usize = 0;
    let ghost lv = crate::text::string_views(list@);
    while i < list.len()
        invariant
            i <= list@.len(),
            lv == crate::text::string_views(list@),
            e@ == ext@,
            found == lv.take(i as int).contains(ext@),
        decreases list@.len() - i,
    {
        let c = chars_of(list[i].as_str());
        proof {
            assert(lv.take(i + 1) =~= lv.take(i as int).push(list@[i as int]@));
            crate::text::lemma_contains_push(lv.take(i as int), list@[i as int]@, ext@);
        }
        if crate::text::chars_eq(c.as_slice(), e.as_slice()) {
            found = true;
        }
        i += 1;
    }
    proof {
        assert(lv.take(list@.len() as int) =~= lv);
    }
    found && !any_eq_ascii_case(exclude_exts, ext)
}

/// `is_supported_file`: the lowercase extension of `path` is indexed.
pub fn is_supported_file(path: &str, exclude_exts: &Vec<String>) -> (r: bool)
    ensures
        r == supported_ext(crate::paths::extension_lower(path@), crate::text::string_views(exclude_exts@)),
{
    let ext = crate::paths::extension(path);
    is_supported_extension(ext.as_str(), exclude_exts)
}

/// The directories excluded by default.
pub fn default_exclude_dirs() -> (r: Vec<String>)
    ensures
        crate::text::string_views(r@) == seq!["node_modules"@, ".git"@, "target"@, "Library"@, "Caches"@, "Application Support"@],
{
    let mut v: Vec<String> = Vec::new();
    v.push("node_modules".to_owned());
    v.push(".git".to_owned());
    v.push("target".to_owned());
    v.push("Library".to_owned());
    v.push("Caches".to_owned());
    v.push("Application Support".to_owned());
    proof {
        assert(crate::text::string_views(v@) =~= seq!["node_modules"@, ".git"@, "target"@, "Library"@, "Caches"@, "Application Support"@]);
    }
    v
}

/// A file larger than the configured limit (in MiB; 0 means no limit).
pub open spec fn too_large(file_size: int, max_file_size_mb: int) -> bool {
    let limit = if max_file_size_mb * 1048576 > u64::MAX { u64::MAX as int } else { max_file_size_mb * 1048576 };
    let limit_i = if limit > i64::MAX { limit - 18446744073709551616 } else { limit };
    limit_i > 0 && file_size > limit_i
}

/// Whether a file of `file_size` bytes exceeds `max_file_size_mb` (the limit
/// is computed with saturation in u64 and read back as i64, as the scanner does).
pub fn file_too_large(file_size: i64, max_file_size_mb: u64) -> (r: bool)
    ensures
        r == too_large(file_size as int, max_file_size_mb as int),
{
    let limit: u64 = if max_file_size_mb > u64::MAX / 1048576 { u64::MAX } else { max_file_size_mb * 1048576 };
    let limit_i: i64 = if limit > i64::MAX as u64 { (limit - (i64::MAX as u64) - 1) as i64 + i64::MIN } else { limit as i64 };
    proof {
        assert(max_file_size_mb > u64::MAX / 1048576 <==> max_file_size_mb * 1048576 > u64::MAX) by (nonlinear_arith);
    }
    limit_i > 0 && file_size > limit_i
}


/// The formats that are indexed are exactly the nineteen the documentation
/// lists (txt, md, markdown, html, htm, docx, log, toml, json, yaml, yml, xml,
/// csv, rs, js, ts, tsx, jsx, py), less any the settings exclude; PDF files and
/// old Word and PowerPoint files are not among them.
pub proof fn law_indexed_formats(ext: Seq<char>)
    ensures
        supported_ext(ext, Seq::empty()) <==> (ext == "txt"@ || ext == "md"@ || ext == "markdown"@ || ext == "html"@ || ext == "htm"@ || ext == "docx"@ || ext == "log"@ || ext == "toml"@ || ext == "json"@ || ext == "yaml"@ || ext == "yml"@ || ext == "xml"@ || ext == "csv"@ || ext == "rs"@ || ext == "js"@ || ext == "ts"@ || ext == "tsx"@ || ext == "jsx"@ || ext == "py"@),
        !supported_ext("pdf"@, Seq::empty()) && !supported_ext("doc"@, Seq::empty())
            && !supported_ext("ppt"@, Seq::empty()) && !supported_ext("pptx"@, Seq::empty()),
{
    reveal_strlit("txt");
    reveal_strlit("md");
    reveal_strlit("markdown");
    reveal_strlit("html");
    reveal_strlit("htm");
    reveal_strlit("docx");
    reveal_strlit("log");
    reveal_strlit("toml");
    reveal_strlit("json");
    reveal_strlit("yaml");
    reveal_strlit("yml");
    reveal_strlit("xml");
    reveal_strlit("csv");
    reveal_strlit("rs");
    reveal_strlit("js");
    reveal_strlit("ts");
    reveal_strlit("tsx");
    reveal_strlit("jsx");
    reveal_strlit("py");
    reveal_strlit("pdf");
    reveal_strlit("doc");
    reveal_strlit("ppt");
    reveal_strlit("pptx");
    let sx = supported_exts();
    if ext == "txt"@ { assert(sx[0] == ext); }
    if ext == "md"@ { assert(sx[1] == ext); }
    if ext == "markdown"@ { assert(sx[2] == ext); }
    if ext == "html"@ { assert(sx[3] == ext); }
    if ext == "htm"@ { assert(sx[4] == ext); }
    if ext == "docx"@ { assert(sx[5] == ext); }
    if ext == "log"@ { assert(sx[6] == ext); }
    if ext == "toml"@ { assert(sx[7] == ext); }
    if ext == "json"@ { assert(sx[8] == ext); }
    if ext == "yaml"@ { assert(sx[9] == ext); }
    if ext == "yml"@ { assert(sx[10] == ext); }
    if ext == "xml"@ { assert(sx[11] == ext); }
    if ext == "csv"@ { assert(sx[12] == ext); }
    if ext == "rs"@ { assert(sx[13] == ext); }
    if ext == "js"@ { assert(sx[14] == ext); }
    if ext == "ts"@ { assert(sx[15] == ext); }
    if ext == "tsx"@ { assert(sx[16] == ext); }
    if ext == "jsx"@ { assert(sx[17] == ext); }
    if ext == "py"@ { assert(sx[18] == ext); }
    if sx.contains(ext) {
        let k = choose|k: int| 0 <= k < sx.len() && sx[k] == ext;
        assert(sx[k] == ext);
    }
    assert forall|k: int| 0 <= k < sx.len() implies sx[k] != "pdf"@ && sx[k] != "doc"@ && sx[k] != "ppt"@ && sx[k] != "pptx"@ by {
        let x = sx[k];
        assert(x.len() != 3 || x[0] != "pdf"@[0] || x[1] != "pdf"@[1]);
        assert(x.len() != 3 || x[0] != "doc"@[0] || x[1] != "doc"@[1] || x[2] != "doc"@[2]);
        assert(x.len() != 3 || x[0] != "ppt"@[0]);
        assert(x.len() != 4 || x[0] != "pptx"@[0]);
    }
}

/// Directories that are never walked: `.git`, `node_modules`, `target`,
/// `Library`, `Caches` and `Application Support`, every hidden directory (its
/// name begins with a dot), and every directory the settings exclude.
pub proof fn law_skipped_directories(name: Seq<char>, exclude_dirs: Seq<Seq<char>>)
    ensures
        (name == ".git"@ || name == "node_modules"@ || name == "target"@ || name == "Library"@ || name == "Caches"@
            || name == "Application Support"@) ==> skip_dir(name, exclude_dirs),
        name.len() > 0 && name[0] == '.' ==> skip_dir(name, exclude_dirs),
        exclude_dirs.contains(name) ==> skip_dir(name, exclude_dirs),
{
    let sd = skipped_dirs();
    if name == ".git"@ || name == "node_modules"@ || name == "target"@ || name == "Library"@ || name == "Caches"@
        || name == "Application Support"@ {
        assert(sd[0] == name || sd[1] == name || sd[2] == name || sd[3] == name || sd[4] == name || sd[5] == name);
        let k = choose|k: int| 0 <= k < sd.len() && sd[k] == name;
        assert(eq_ascii_case(sd[k], name));
    }
    if exclude_dirs.contains(name) {
        let k = choose|k: int| 0 <= k < exclude_dirs.len() && exclude_dirs[k] == name;
        assert(eq_ascii_case(exclude_dirs[k], name));
    }
}

/// The size limit: with a limit of `mb` megabytes (at least one, and small
/// enough that the limit in bytes fits), a file is too large exactly when it
/// has more than `mb` × 1 048 576 bytes; a limit of zero lets every file in.
pub proof fn law_size_limit(file_size: int, mb: int)
    ensures
        1 <= mb <= 8796093022207 ==> (too_large(file_size, mb) <==> file_size > mb * 1048576),
        mb == 0 ==> !too_large(file_size, mb),
{
    if 1 <= mb <= 8796093022207 {
        assert(mb * 1048576 <= 9223372036853727232) by (nonlinear_arith)
            requires 1 <= mb <= 8796093022207;
        assert(mb * 1048576 >= 1048576) by (nonlinear_arith)
            requires 1 <= mb;
    }
}

} // verus!
