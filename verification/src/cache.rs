//! The chunked cache tier.
//!
//! A dataset snapshot, serialized as lines of flat text, is too large for
//! one slot of the backing key-value store, so it is split into chunks of
//! a fixed line count and each chunk is written under a key derived from
//! its index (`"{dataset}_{index}"`). The writer always ends with one
//! partial chunk of fewer than the fixed line count (possibly empty), so
//! a reader can tell a complete chunk sequence from a truncated one: it
//! reads chunks in index order, continues past every full chunk, stops at
//! the first partial chunk, and treats an absent key, an overfull chunk
//! or a bound overrun as a miss rather than returning a truncated
//! dataset. An empty reassembled text is also a miss: the cache never
//! holds a usable empty snapshot. A miss triggers a refetch from the
//! origin and an unconditional rewrite of every chunk; there is no
//! partial refresh. Two cold starts may race on a miss: both refetch and
//! both rewrite every chunk, the last writer wins, and nothing here
//! assumes atomicity across the chunk set — a reader that finds the set
//! incomplete simply misses and refetches.

use vstd::prelude::*;

use crate::service::DataError;
use crate::text::{
    format_u64, push_char, spec_contains, spec_dec_nat, spec_join, spec_match_at, spec_split,
    split_str,
};

verus! {

/// The delimiter that ends each serialized line.
pub open spec fn spec_line_delim() -> Seq<char> {
    seq!['\n']
}

/// Whether a serialized line is safe to store: it must not contain the
/// line delimiter itself.
pub open spec fn spec_line_ok(l: Seq<char>) -> bool {
    !spec_contains(l, spec_line_delim())
}

/// How many times `c` occurs in `s`.
pub open spec fn spec_count_char(s: Seq<char>, c: char) -> int
    decreases s.len(),
{
    if s.len() == 0 {
        0
    } else {
        spec_count_char(s.drop_last(), c) + (if s.last() == c {
            1int
        } else {
            0int
        })
    }
}

/// The flat text of a line sequence: every line followed by one line
/// delimiter.
pub open spec fn spec_encode_lines(ls: Seq<Seq<char>>) -> Seq<char>
    decreases ls.len(),
{
    if ls.len() == 0 {
        Seq::empty()
    } else {
        ls[0] + spec_line_delim() + spec_encode_lines(ls.skip(1))
    }
}

/// The lines of a flat text: split on the delimiter, with the final
/// empty segment (the text ends with a delimiter) dropped.
pub open spec fn spec_decode_lines(s: Seq<char>) -> Seq<Seq<char>> {
    let parts = spec_split(s, spec_line_delim());
    if parts.len() > 0 && parts.last().len() == 0 {
        parts.drop_last()
    } else {
        parts
    }
}

/// The chunks a line sequence is stored as: groups of `per` lines, each
/// chunk their flat text, always ending with one partial chunk of fewer
/// than `per` lines (possibly empty).
pub open spec fn spec_chunks(ls: Seq<Seq<char>>, per: nat) -> Seq<Seq<char>>
    decreases ls.len(),
    when per >= 1
{
    if ls.len() < per {
        seq![spec_encode_lines(ls)]
    } else {
        seq![spec_encode_lines(ls.take(per as int))] + spec_chunks(ls.skip(per as int), per)
    }
}

/// What reassembling the read-back chunk values yields: full chunks
/// (exactly `per` lines) are concatenated in order until the first
/// partial chunk, which completes the text. An absent key, an overfull
/// chunk, or running out of reads before a partial chunk is a miss
/// (`None`).
pub open spec fn spec_assemble(reads: Seq<Option<Seq<char>>>, per: nat) -> Option<Seq<char>>
    decreases reads.len(),
{
    if reads.len() == 0 {
        None
    } else {
        match reads[0] {
            None => None,
            Some(c) => {
                let k = spec_count_char(c, '\n');
                if k < per {
                    Some(c)
                } else if k == per {
                    match spec_assemble(reads.skip(1), per) {
                        Some(rest) => Some(c + rest),
                        None => None,
                    }
                } else {
                    None
                }
            },
        }
    }
}

/// What the read path concludes: the reassembled text when it is complete and
/// non-empty, and a miss otherwise.
pub open spec fn spec_read_outcome(reads: Seq<Option<Seq<char>>>, per: nat) -> Option<Seq<char>> {
    match spec_assemble(reads, per) {
        Some(t) => if t.len() == 0 {
            None
        } else {
            Some(t)
        },
        None => None,
    }
}

/// How many serialized lines one chunk holds in the standard
/// configuration.
pub const LINES_PER_CHUNK: usize = 1000;

/// The fixed upper bound on the number of chunks one dataset may use.
pub const MAX_CHUNK_COUNT: usize = 100;

/// What the read path found: a usable snapshot, or nothing.
#[derive(Debug)]
pub enum CacheRead {
    /// A complete, non-empty serialized snapshot.
    Hit(String),
    /// No usable snapshot: refetch from the origin and rewrite every
    /// chunk.
    Miss,
}

// ---------------------------------------------------------------------------
// Executable operations
// ---------------------------------------------------------------------------
/// Counts the line delimiters in a chunk.
fn count_newlines(s: &str) -> (r: usize)
    ensures
        r == spec_count_char(s@, '\n'),
{
    let n = s.unicode_len();
    let mut count: usize = 0;
    let mut i: usize = 0;
    while i < n
        invariant
            0 <= i <= n,
            n == s@.len(),
            count == spec_count_char(s@.take(i as int), '\n'),
            count <= i,
        decreases n - i,
    {
        proof {
            assert(s@.take(i + 1).drop_last() =~= s@.take(i as int));
        }
        if s.get_char(i) == '\n' {
            count = count + 1;
        }
        i = i + 1;
    }
    proof {
        assert(s@.take(n as int) =~= s@);
    }
    count
}

/// The storage key of chunk `index` of a dataset: `"{dataset}_{index}"`.
pub fn chunk_key(dataset: &str, index: u64) -> (r: String)
    ensures
        r@ == dataset@ + "_"@ + spec_dec_nat(index as nat),
{
    let mut key = dataset.to_owned();
    key.append("_");
    let digits = format_u64(index);
    key.append(digits.as_str());
    key
}

/// Serializes lines into flat text, each line closed by one delimiter.
pub fn encode_lines(lines: &Vec<String>) -> (r: String)
    ensures
        r@ == spec_encode_lines(lines.deep_view()),
{
    let r = encode_line_range(lines, 0, lines.len());
    proof {
        assert(lines.deep_view().subrange(0, lines@.len() as int) =~= lines.deep_view());
    }
    r
}

/// Serializes the line range `[from, to)` into flat text.
fn encode_line_range(lines: &Vec<String>, from: usize, to: usize) -> (r: String)
    requires
        from <= to <= lines@.len(),
    ensures
        r@ == spec_encode_lines(lines.deep_view().subrange(from as int, to as int)),
{
    let mut out = String::new();
    let mut i = from;
    while i < to
        invariant
            from <= i <= to <= lines@.len(),
            lines.deep_view().len() == lines@.len(),
            out@ == spec_encode_lines(lines.deep_view().subrange(from as int, i as int)),
        decreases to - i,
    {
        out.append(lines[i].as_str());
        push_char(&mut out, '\n');
        proof {
            lemma_encode_push(
                lines.deep_view().subrange(from as int, i as int),
                lines.deep_view()[i as int],
            );
            assert(lines.deep_view().subrange(from as int, i + 1) =~= lines.deep_view().subrange(
                from as int,
                i as int,
            ).push(lines.deep_view()[i as int]));
        }
        i = i + 1;
    }
    out
}

/// Parses flat text back into its lines.
pub fn decode_lines(s: &str) -> (r: Vec<String>)
    ensures
        r.deep_view() == spec_decode_lines(s@),
{
    proof {
        reveal_strlit("\n");
        assert("\n"@ =~= spec_line_delim());
        crate::text::lemma_split_nonempty(s@, spec_line_delim());
    }
    let mut parts = split_str(s, "\n");
    let n = parts.len();
    assert(n >= 1);
    if parts[n - 1].as_str().unicode_len() == 0 {
        let ghost before = parts.deep_view();
        let _ = parts.pop();
        proof {
            assert(parts.deep_view() =~= before.drop_last());
        }
    }
    parts
}

/// Splits serialized lines into their stored chunks: full chunks of
/// `per` lines each, then one final partial chunk.
pub fn chunk_lines(lines: &Vec<String>, per: usize) -> (r: Vec<String>)
    requires
        per >= 1,
    ensures
        r.deep_view() == spec_chunks(lines.deep_view(), per as nat),
{
    let n = lines.len();
    let mut out: Vec<String> = Vec::new();
    let mut start: usize = 0;
    proof {
        assert(lines.deep_view().skip(0) =~= lines.deep_view());
        assert(out.deep_view() =~= Seq::<Seq<char>>::empty());
    }
    while n - start >= per
        invariant
            per >= 1,
            0 <= start <= n,
            n == lines@.len(),
            lines.deep_view().len() == n,
            spec_chunks(lines.deep_view(), per as nat) == out.deep_view() + spec_chunks(
                lines.deep_view().skip(start as int),
                per as nat,
            ),
        decreases n - start,
    {
        let chunk = encode_line_range(lines, start, start + per);
        let ghost before = out.deep_view();
        out.push(chunk);
        proof {
            let ls = lines.deep_view();
            let rest = ls.skip(start as int);
            assert(rest.len() >= per);
            assert(rest.take(per as int) =~= ls.subrange(start as int, start + per));
            assert(rest.skip(per as int) =~= ls.skip(start + per));
            assert(out.deep_view() =~= before.push(chunk@));
            assert(out.deep_view() + spec_chunks(ls.skip(start + per), per as nat)
                =~= before + spec_chunks(rest, per as nat));
        }
        start = start + per;
    }
    let tail = encode_line_range(lines, start, n);
    let ghost before = out.deep_view();
    out.push(tail);
    proof {
        let ls = lines.deep_view();
        let rest = ls.skip(start as int);
        assert(rest.len() < per);
        assert(rest =~= ls.subrange(start as int, n as int));
        assert(spec_chunks(rest, per as nat) == seq![spec_encode_lines(rest)]);
        assert(out.deep_view() =~= before.push(tail@));
        assert(out.deep_view() =~= before + spec_chunks(rest, per as nat));
    }
    out
}

/// Builds the full write plan of a refresh: the key-value pairs of every
/// chunk, in index order. A refresh always rewrites the whole set; a
/// dataset needing more than `max_chunks` chunks is refused loudly with
/// [`DataError::Cache`] rather than silently truncated on a later read.
pub fn refresh_plan(dataset: &str, lines: &Vec<String>, per: usize, max_chunks: usize) -> (r:
    Result<Vec<(String, String)>, DataError>)
    requires
        per >= 1,
    ensures
        match r {
            Ok(plan) => {
                let chunks = spec_chunks(lines.deep_view(), per as nat);
                &&& chunks.len() <= max_chunks
                &&& plan@.len() == chunks.len()
                &&& forall|i: int|
                    0 <= i < plan@.len() ==> (#[trigger] plan@[i].0)@ == dataset@ + "_"@
                        + spec_dec_nat(i as nat) && plan@[i].1@ == chunks[i]
            },
            Err(e) => e == DataError::Cache && spec_chunks(lines.deep_view(), per as nat).len()
                > max_chunks,
        },
{
    let chunks = chunk_lines(lines, per);
    if chunks.len() > max_chunks {
        return Err(DataError::Cache);
    }
    let mut plan: Vec<(String, String)> = Vec::new();
    let n = chunks.len();
    let mut i: usize = 0;
    while i < n
        invariant
            0 <= i <= n,
            n == chunks@.len(),
            chunks.deep_view() == spec_chunks(lines.deep_view(), per as nat),
            chunks.deep_view().len() == n,
            plan@.len() == i,
            forall|k: int|
                0 <= k < i ==> (#[trigger] plan@[k].0)@ == dataset@ + "_"@ + spec_dec_nat(k as nat)
                    && plan@[k].1@ == chunks.deep_view()[k],
        decreases n - i,
    {
        let key = chunk_key(dataset, i as u64);
        let value = chunks[i].clone();
        let ghost before = plan@;
        plan.push((key, value));
        proof {
            assert forall|k: int|
                0 <= k < i + 1 implies (#[trigger] plan@[k].0)@ == dataset@ + "_"@ + spec_dec_nat(
                k as nat,
            ) && plan@[k].1@ == chunks.deep_view()[k] by {
                if k < i {
                    assert(plan@[k] == before[k]);
                }
            }
        }
        i = i + 1;
    }
    Ok(plan)
}

/// Runs the read path over the chunk values read back in index order
/// (`reads[i]` is the value stored under the key of chunk `i`, if the
/// key was present). Full chunks are concatenated until the first
/// partial chunk completes the text; anything else — an absent key, an
/// overfull chunk, no partial chunk within the read bound, or an empty
/// text — is a [`CacheRead::Miss`].
pub fn read_outcome(reads: &Vec<Option<String>>, per: usize) -> (r: CacheRead)
    requires
        per >= 1,
    ensures
        match spec_read_outcome(reads.deep_view(), per as nat) {
            Some(t) => r matches CacheRead::Hit(s) && s@ == t,
            None => r is Miss,
        },
{
    let n = reads.len();
    let mut acc = String::new();
    let mut i: usize = 0;
    proof {
        assert(reads.deep_view().skip(0) =~= reads.deep_view());
        if spec_assemble(reads.deep_view(), per as nat) is Some {
            let t = spec_assemble(reads.deep_view(), per as nat)->Some_0;
            assert(acc@ + t =~= t);
        }
    }
    while i < n
        invariant
            per >= 1,
            0 <= i <= n,
            n == reads@.len(),
            reads.deep_view().len() == n,
            spec_assemble(reads.deep_view(), per as nat) is Some <==> spec_assemble(
                reads.deep_view().skip(i as int),
                per as nat,
            ) is Some,
            spec_assemble(reads.deep_view(), per as nat) matches Some(t) ==> t == acc@
                + spec_assemble(reads.deep_view().skip(i as int), per as nat)->Some_0,
        decreases n - i,
    {
        let ghost rest = reads.deep_view().skip(i as int);
        proof {
            assert(rest.len() > 0);
            assert(rest[0] == reads.deep_view()[i as int]);
            assert(rest.skip(1) =~= reads.deep_view().skip(i + 1));
        }
        match &reads[i] {
            None => {
                return CacheRead::Miss;
            },
            Some(c) => {
                let k = count_newlines(c.as_str());
                if k < per {
                    acc.append(c.as_str());
                    if acc.as_str().unicode_len() == 0 {
                        return CacheRead::Miss;
                    }
                    return CacheRead::Hit(acc);
                } else if k == per {
                    let ghost acc_old = acc@;
                    acc.append(c.as_str());
                    proof {
                        if spec_assemble(reads.deep_view(), per as nat) is Some {
                            let r1 = spec_assemble(
                                reads.deep_view().skip(i + 1),
                                per as nat,
                            )->Some_0;
                            assert((acc_old + c@) + r1 =~= acc_old + (c@ + r1));
                        }
                    }
                } else {
                    return CacheRead::Miss;
                }
            },
        }
        i = i + 1;
    }
    proof {
        assert(reads.deep_view().skip(n as int) =~= Seq::<Option<Seq<char>>>::empty());
    }
    CacheRead::Miss
}

/// The storage key of the unchunked deck dataset.
pub fn decks_key() -> (r: String)
    ensures
        r@ == "decks"@,
{
    "decks".to_owned()
}

/// The single write of a deck refresh: the deck dataset is small enough
/// to store whole, unsplit, under the one key [`decks_key`].
pub fn decks_refresh_entry(lines: &Vec<String>) -> (r: (String, String))
    ensures
        r.0@ == "decks"@,
        r.1@ == spec_encode_lines(lines.deep_view()),
{
    (decks_key(), encode_lines(lines))
}

/// The read path of an unchunked value (the deck dataset, stored whole
/// under one key): present and non-empty is a hit, anything else a miss.
pub fn read_unchunked(read: Option<String>) -> (r: CacheRead)
    ensures
        match read {
            Some(s) => if s@.len() == 0 {
                r is Miss
            } else {
                r matches CacheRead::Hit(t) && t@ == s@
            },
            None => r is Miss,
        },
{
    match read {
        Some(s) => {
            if s.as_str().unicode_len() == 0 {
                CacheRead::Miss
            } else {
                CacheRead::Hit(s)
            }
        },
        None => CacheRead::Miss,
    }
}

// ---------------------------------------------------------------------------
// Round-trip and miss-fallback laws
// ---------------------------------------------------------------------------
/// Appending one line to a serialization appends the line and one
/// delimiter.
proof fn lemma_encode_push(ls: Seq<Seq<char>>, l: Seq<char>)
    ensures
        spec_encode_lines(ls.push(l)) == spec_encode_lines(ls) + l + spec_line_delim(),
    decreases ls.len(),
{
    assert(spec_encode_lines(Seq::<Seq<char>>::empty()) == Seq::<char>::empty());
    if ls.len() == 0 {
        assert(ls.push(l)[0] == l);
        assert(ls.push(l).skip(1) =~= Seq::<Seq<char>>::empty());
        assert(spec_encode_lines(ls.push(l)) =~= spec_encode_lines(ls) + l + spec_line_delim());
    } else {
        lemma_encode_push(ls.skip(1), l);
        assert(ls.push(l).skip(1) =~= ls.skip(1).push(l));
        assert(ls.push(l)[0] == ls[0]);
        assert(spec_encode_lines(ls.push(l)) =~= spec_encode_lines(ls) + l + spec_line_delim());
    }
}

/// Serializations concatenate: the text of `a + b` is the text of `a`
/// followed by the text of `b`.
proof fn lemma_encode_concat(a: Seq<Seq<char>>, b: Seq<Seq<char>>)
    ensures
        spec_encode_lines(a + b) == spec_encode_lines(a) + spec_encode_lines(b),
    decreases a.len(),
{
    if a.len() == 0 {
        assert(a + b =~= b);
        assert(spec_encode_lines(a + b) =~= spec_encode_lines(a) + spec_encode_lines(b));
    } else {
        lemma_encode_concat(a.skip(1), b);
        assert((a + b).skip(1) =~= a.skip(1) + b);
        assert((a + b)[0] == a[0]);
        assert(spec_encode_lines(a + b) =~= spec_encode_lines(a) + spec_encode_lines(b));
    }
}

proof fn lemma_count_concat(a: Seq<char>, b: Seq<char>, c: char)
    ensures
        spec_count_char(a + b, c) == spec_count_char(a, c) + spec_count_char(b, c),
    decreases b.len(),
{
    if b.len() == 0 {
        assert(a + b =~= a);
    } else {
        lemma_count_concat(a, b.drop_last(), c);
        assert((a + b).drop_last() =~= a + b.drop_last());
        assert((a + b).last() == b.last());
    }
}

/// A delimiter-free line has no delimiter character at any position.
proof fn lemma_line_ok_chars(l: Seq<char>)
    requires
        spec_line_ok(l),
    ensures
        forall|i: int| 0 <= i < l.len() ==> l[i] != '\n',
{
    assert forall|i: int| 0 <= i < l.len() implies l[i] != '\n' by {
        if l[i] == '\n' {
            assert(l.subrange(i, i + 1) =~= spec_line_delim());
            assert(spec_match_at(l, spec_line_delim(), i));
        }
    }
}

proof fn lemma_count_clean_line(l: Seq<char>)
    requires
        spec_line_ok(l),
    ensures
        spec_count_char(l, '\n') == 0,
    decreases l.len(),
{
    if l.len() > 0 {
        lemma_line_ok_chars(l);
        assert(spec_line_ok(l.drop_last())) by {
            if spec_contains(l.drop_last(), spec_line_delim()) {
                let i = choose|i: int| spec_match_at(l.drop_last(), spec_line_delim(), i);
                assert(l.drop_last().subrange(i, i + 1) == spec_line_delim());
                assert(l.drop_last().subrange(i, i + 1)[0] == l.drop_last()[i]);
                assert(l[i] == '\n');
            }
        }
        lemma_count_clean_line(l.drop_last());
    }
}

/// The text of `n` delimiter-free lines holds exactly `n` delimiters.
proof fn lemma_count_encode(ls: Seq<Seq<char>>)
    requires
        forall|i: int| 0 <= i < ls.len() ==> spec_line_ok(#[trigger] ls[i]),
    ensures
        spec_count_char(spec_encode_lines(ls), '\n') == ls.len(),
    decreases ls.len(),
{
    if ls.len() == 0 {
    } else {
        assert(forall|i: int|
            0 <= i < ls.skip(1).len() ==> spec_line_ok(#[trigger] ls.skip(1)[i]));
        lemma_count_encode(ls.skip(1));
        lemma_count_clean_line(ls[0]);
        lemma_count_concat(ls[0], spec_line_delim(), '\n');
        lemma_count_concat(ls[0] + spec_line_delim(), spec_encode_lines(ls.skip(1)), '\n');
        assert(spec_count_char(spec_line_delim(), '\n') == 1) by {
            assert(spec_line_delim().drop_last() =~= Seq::<char>::empty());
            assert(spec_count_char(Seq::<char>::empty(), '\n') == 0);
        }
        assert(ls[0] + spec_line_delim() + spec_encode_lines(ls.skip(1)) == (ls[0]
            + spec_line_delim()) + spec_encode_lines(ls.skip(1)));
    }
}

/// Decoding the text of delimiter-free lines yields the lines again,
/// for any line count including zero.
pub proof fn lemma_encode_decode_lines(ls: Seq<Seq<char>>)
    requires
        forall|i: int| 0 <= i < ls.len() ==> spec_line_ok(#[trigger] ls[i]),
    ensures
        spec_decode_lines(spec_encode_lines(ls)) == ls,
{
    let d = spec_line_delim();
    let withend = ls.push(Seq::<char>::empty());
    assert(spec_encode_lines(ls) + Seq::<char>::empty() =~= spec_encode_lines(ls));
    assert(spec_join(withend, d) == spec_encode_lines(ls)) by {
        lemma_join_of_push(ls);
    }
    assert(forall|k: int| 0 <= k < withend.len() ==> !spec_contains(#[trigger] withend[k], d)) by {
        assert forall|k: int| 0 <= k < withend.len() implies !spec_contains(
            #[trigger] withend[k],
            d,
        ) by {
            if k < ls.len() {
                assert(withend[k] == ls[k]);
            } else {
                assert(withend[k] == Seq::<char>::empty());
                if spec_contains(Seq::<char>::empty(), d) {
                    let i = choose|i: int| spec_match_at(Seq::<char>::empty(), d, i);
                }
            }
        }
    }
    crate::text::lemma_join_split_roundtrip(withend, d);
    let parts = spec_split(spec_encode_lines(ls), d);
    assert(parts == withend);
    assert(parts.last().len() == 0);
    assert(parts.drop_last() =~= ls);
}

/// The text of lines equals those lines joined by the delimiter with one
/// trailing empty segment.
proof fn lemma_join_of_push(ls: Seq<Seq<char>>)
    ensures
        spec_join(ls.push(Seq::<char>::empty()), spec_line_delim()) == spec_encode_lines(ls),
    decreases ls.len(),
{
    let d = spec_line_delim();
    let w = ls.push(Seq::<char>::empty());
    if ls.len() == 0 {
        assert(w.len() == 1);
        assert(spec_join(w, d) == w[0]);
        assert(w[0] =~= spec_encode_lines(ls));
    } else {
        lemma_join_of_push(ls.skip(1));
        assert(w.len() >= 2);
        assert(spec_join(w, d) == w[0] + d + spec_join(w.skip(1), d));
        assert(w.skip(1) =~= ls.skip(1).push(Seq::<char>::empty()));
        assert(w[0] == ls[0]);
    }
}


/// Chunk round trip: writing the chunks of any delimiter-free line
/// sequence and reading every one of them back in order reassembles
/// exactly the original serialization — for zero lines, for fewer lines
/// than one chunk holds, and for line counts spanning several chunks.
/// Together with [`lemma_encode_decode_lines`], reading back reproduces
/// the original lines exactly.
pub proof fn lemma_chunk_roundtrip(ls: Seq<Seq<char>>, per: nat, reads: Seq<Option<Seq<char>>>)
    requires
        per >= 1,
        forall|i: int| 0 <= i < ls.len() ==> spec_line_ok(#[trigger] ls[i]),
        reads.len() >= spec_chunks(ls, per).len(),
        forall|i: int|
            0 <= i < spec_chunks(ls, per).len() ==> reads[i] == Some(
                #[trigger] spec_chunks(ls, per)[i],
            ),
    ensures
        spec_assemble(reads, per) == Some(spec_encode_lines(ls)),
        spec_decode_lines(spec_encode_lines(ls)) == ls,
    decreases ls.len(),
{
    lemma_encode_decode_lines(ls);
    let chunks = spec_chunks(ls, per);
    if ls.len() < per {
        assert(chunks == seq![spec_encode_lines(ls)]);
        assert(chunks[0] == spec_encode_lines(ls));
        assert(reads[0] == Some(chunks[0]));
        lemma_count_encode(ls);
        assert(spec_count_char(spec_encode_lines(ls), '\n') == ls.len() < per);
        assert(spec_assemble(reads, per) == Some(spec_encode_lines(ls)));
    } else {
        let head = ls.take(per as int);
        let tail = ls.skip(per as int);
        assert(forall|i: int| 0 <= i < head.len() ==> spec_line_ok(#[trigger] head[i]));
        assert(forall|i: int| 0 <= i < tail.len() ==> spec_line_ok(#[trigger] tail[i]));
        lemma_count_encode(head);
        assert(chunks == seq![spec_encode_lines(head)] + spec_chunks(tail, per));
        assert(chunks[0] == spec_encode_lines(head));
        assert(reads[0] == Some(chunks[0]));
        assert(spec_count_char(spec_encode_lines(head), '\n') == per);
        let subreads = reads.skip(1);
        assert(subreads.len() >= spec_chunks(tail, per).len());
        assert forall|i: int| 0 <= i < spec_chunks(tail, per).len() implies subreads[i] == Some(
            #[trigger] spec_chunks(tail, per)[i],
        ) by {
            assert(chunks[i + 1] == spec_chunks(tail, per)[i]);
            assert(reads[i + 1] == Some(chunks[i + 1]));
        }
        lemma_chunk_roundtrip(tail, per, subreads);
        lemma_encode_concat(head, tail);
        assert(head + tail =~= ls);
    }
}

/// Cache-miss fallback: if any chunk of the written set is absent from
/// the store, the read path reports a miss — never a silently truncated
/// dataset. `j` is the first absent index: every chunk before it reads
/// back as written.
pub proof fn lemma_absent_chunk_is_miss(
    ls: Seq<Seq<char>>,
    per: nat,
    reads: Seq<Option<Seq<char>>>,
    j: int,
)
    requires
        per >= 1,
        forall|i: int| 0 <= i < ls.len() ==> spec_line_ok(#[trigger] ls[i]),
        0 <= j < spec_chunks(ls, per).len(),
        reads.len() > j,
        forall|i: int| 0 <= i < j ==> reads[i] == Some(#[trigger] spec_chunks(ls, per)[i]),
        reads[j] is None,
    ensures
        spec_assemble(reads, per) is None,
        spec_read_outcome(reads, per) is None,
    decreases j,
{
    let chunks = spec_chunks(ls, per);
    if j == 0 {
        assert(spec_assemble(reads, per) is None);
    } else {
        // j >= 1, so the first chunk is a full one and assembly recurses.
        assert(ls.len() >= per) by {
            if ls.len() < per {
                assert(chunks.len() == 1);
            }
        }
        let head = ls.take(per as int);
        let tail = ls.skip(per as int);
        assert(forall|i: int| 0 <= i < head.len() ==> spec_line_ok(#[trigger] head[i]));
        assert(forall|i: int| 0 <= i < tail.len() ==> spec_line_ok(#[trigger] tail[i]));
        lemma_count_encode(head);
        assert(chunks == seq![spec_encode_lines(head)] + spec_chunks(tail, per));
        assert(chunks[0] == spec_encode_lines(head));
        assert(reads[0] == Some(chunks[0]));
        assert(spec_count_char(spec_encode_lines(head), '\n') == per);
        let subreads = reads.skip(1);
        assert forall|i: int| 0 <= i < j - 1 implies subreads[i] == Some(
            #[trigger] spec_chunks(tail, per)[i],
        ) by {
            assert(chunks[i + 1] == spec_chunks(tail, per)[i]);
            assert(reads[i + 1] == Some(chunks[i + 1]));
        }
        assert(subreads[j - 1] is None);
        lemma_absent_chunk_is_miss(tail, per, subreads, j - 1);
        assert(spec_assemble(subreads, per) is None);
        assert(spec_assemble(reads, per) is None);
    }
}

} // verus!
