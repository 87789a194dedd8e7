//! Text segmentation: turning raw document content into an ordered
//! sequence of bounded chunks sized for one embedding call each.
//!
//! The pipeline normalizes newlines to spaces, splits the text into
//! sentences at `.`, `!`, `?` or newline boundaries (each sentence
//! keeping its trailing delimiter run), greedily accumulates sentences
//! into chunks under a token budget, and finally re-slices any chunk
//! whose character length exceeds a hard cap into near-equal pieces.
//! Every step is a pure function of the input text.
use vstd::prelude::*;

verus! {

/// Token budget of one chunk: sentences are accumulated while the
/// chunk's estimated token count stays at or under this.
pub const TOKEN_BUDGET: u64 = 5000;

/// Hard cap on a chunk's character length; longer chunks are re-sliced.
pub const MAX_CHUNK_CHARS: usize = 30000;

/// One bounded slice of document text with its estimated token count.
pub struct Chunk {
    pub text: Vec<char>,
    pub token_estimate: usize,
}

/// A sentence delimiter: `.`, `!`, `?` or a newline.
pub open spec fn spec_is_delimiter(c: char) -> bool {
    c == '.' || c == '!' || c == '?' || c == '\n'
}

/// Exec mirror of `spec_is_delimiter`.
pub fn is_delimiter(c: char) -> (r: bool)
    ensures
        r == spec_is_delimiter(c),
{
    c == '.' || c == '!' || c == '?' || c == '\n'
}

/// A character that belongs to a word: neither ASCII whitespace or
/// control, nor ASCII punctuation. Tokens are maximal runs of these.
pub open spec fn spec_is_word_char(c: char) -> bool {
    let u = c as u32;
    !(u <= 0x20 || (0x21 <= u && u <= 0x2f) || (0x3a <= u && u <= 0x40) || (0x5b <= u && u
        <= 0x60) || (0x7b <= u && u <= 0x7e))
}

/// Exec mirror of `spec_is_word_char`.
pub fn is_word_char(c: char) -> (r: bool)
    ensures
        r == spec_is_word_char(c),
{
    let u = c as u32;
    !(u <= 0x20 || (0x21 <= u && u <= 0x2f) || (0x3a <= u && u <= 0x40) || (0x5b <= u && u
        <= 0x60) || (0x7b <= u && u <= 0x7e))
}

/// The estimated token count of a text: the number of maximal runs of
/// word characters, i.e. of positions that start a word.
pub open spec fn count_tokens(s: Seq<char>) -> nat
    decreases s.len(),
{
    if s.len() == 0 {
        0
    } else {
        count_tokens(s.drop_last()) + (if spec_is_word_char(s.last()) && (s.len() == 1
            || !spec_is_word_char(s[s.len() - 2])) {
            1nat
        } else {
            0nat
        })
    }
}

/// Counts the tokens of `s` as `count_tokens` defines them.
pub fn count_tokens_exec(s: &Vec<char>) -> (r: usize)
    ensures
        r == count_tokens(s@),
{
    let mut count: usize = 0;
    let mut i: usize = 0;
    while i < s.len()
        invariant
            i <= s@.len(),
            count == count_tokens(s@.take(i as int)),
            count <= i,
        decreases s@.len() - i,
    {
        let starts_word = is_word_char(s[i]) && (i == 0 || !is_word_char(s[i - 1]));
        proof {
            let t = s@.take(i + 1);
            assert(t.drop_last() =~= s@.take(i as int));
            assert(t.last() == s@[i as int]);
        }
        if starts_word {
            count = count + 1;
        }
        i = i + 1;
    }
    proof {
        assert(s@.take(s@.len() as int) =~= s@);
    }
    count
}

/// The text with every newline replaced by a space.
pub open spec fn normalize_newlines(s: Seq<char>) -> Seq<char> {
    s.map_values(|c: char| if c == '\n' { ' ' } else { c })
}

/// Replaces every newline of `text` with a space.
pub fn normalize_newlines_exec(text: &Vec<char>) -> (r: Vec<char>)
    ensures
        r@ == normalize_newlines(text@),
{
    let mut out: Vec<char> = Vec::new();
    let mut i: usize = 0;
    while i < text.len()
        invariant
            i <= text@.len(),
            out@.len() == i,
            forall|j: int| 0 <= j < i ==> out@[j] == normalize_newlines(text@)[j],
        decreases text@.len() - i,
    {
        let c = text[i];
        if c == '\n' {
            out.push(' ');
        } else {
            out.push(c);
        }
        i = i + 1;
    }
    proof {
        assert(out@ =~= normalize_newlines(text@));
    }
    out
}

/// Copies a character vector.
fn copy_chars(src: &Vec<char>) -> (r: Vec<char>)
    ensures
        r@ == src@,
{
    let mut out: Vec<char> = Vec::new();
    let mut i: usize = 0;
    while i < src.len()
        invariant
            i <= src@.len(),
            out@ == src@.take(i as int),
        decreases src@.len() - i,
    {
        out.push(src[i]);
        proof {
            assert(src@.take(i + 1) =~= src@.take(i as int).push(src@[i as int]));
        }
        i = i + 1;
    }
    proof {
        assert(src@.take(src@.len() as int) =~= src@);
    }
    out
}

/// The sentences of a text: the text is cut after every maximal run of
/// delimiters, so each sentence keeps its trailing delimiter run, and
/// only the last sentence may end without one. The sentences
/// concatenate back to the text, and none is empty.
pub open spec fn split_sentences(s: Seq<char>) -> Seq<Seq<char>>
    decreases s.len(),
{
    if s.len() == 0 {
        Seq::empty()
    } else {
        let rest = split_sentences(s.drop_last());
        let c = s.last();
        if rest.len() == 0 {
            seq![seq![c]]
        } else if spec_is_delimiter(rest.last().last()) && !spec_is_delimiter(c) {
            rest.push(seq![c])
        } else {
            rest.update(rest.len() - 1, rest.last().push(c))
        }
    }
}

/// Every sentence `split_sentences` yields is nonempty.
pub proof fn lemma_split_sentences_nonempty(s: Seq<char>)
    ensures
        forall|i: int|
            0 <= i < split_sentences(s).len() ==> #[trigger] split_sentences(s)[i].len() > 0,
    decreases s.len(),
{
    if s.len() > 0 {
        lemma_split_sentences_nonempty(s.drop_last());
        let rest = split_sentences(s.drop_last());
        let c = s.last();
        if rest.len() == 0 {
            assert(split_sentences(s) =~= seq![seq![c]]);
            assert(split_sentences(s)[0].len() == 1);
        } else if spec_is_delimiter(rest.last().last()) && !spec_is_delimiter(c) {
            assert(split_sentences(s) == rest.push(seq![c]));
            assert(forall|i: int|
                0 <= i < rest.len() ==> #[trigger] split_sentences(s)[i] == rest[i]);
        } else {
            assert(split_sentences(s) == rest.update(rest.len() - 1, rest.last().push(c)));
            assert(forall|i: int|
                0 <= i < rest.len() - 1 ==> #[trigger] split_sentences(s)[i] == rest[i]);
        }
    }
}

/// Splits `text` into sentences as `split_sentences` defines them.
pub fn split_sentences_exec(text: &Vec<char>) -> (r: Vec<Vec<char>>)
    ensures
        r@.map_values(|v: Vec<char>| v@) == split_sentences(text@),
{
    let mut done: Vec<Vec<char>> = Vec::new();
    let mut cur: Vec<char> = Vec::new();
    let mut i: usize = 0;
    while i < text.len()
        invariant
            i <= text@.len(),
            i == 0 ==> done@.len() == 0 && cur@.len() == 0,
            i > 0 ==> cur@.len() > 0 && split_sentences(text@.take(i as int)) == done@.map_values(
                |v: Vec<char>| v@,
            ).push(cur@),
        decreases text@.len() - i,
    {
        let ghost pre = split_sentences(text@.take(i as int));
        let c = text[i];
        proof {
            assert(text@.take(i + 1).drop_last() =~= text@.take(i as int));
            assert(text@.take(i + 1).last() == text@[i as int]);
        }
        if i == 0 {
            cur.push(c);
            proof {
                assert(cur@ =~= seq![text@[0]]);
                assert(split_sentences(text@.take(1)) =~= seq![seq![text@[0]]]);
                assert(done@.map_values(|v: Vec<char>| v@).push(cur@) =~= seq![seq![text@[0]]]);
            }
        } else if is_delimiter(cur[cur.len() - 1]) && !is_delimiter(c) {
            proof {
                assert(pre.last() == cur@);
                assert(pre.len() > 0);
            }
            done.push(cur);
            cur = Vec::new();
            cur.push(c);
            proof {
                assert(cur@ =~= seq![text@[i as int]]);
                assert(done@.map_values(|v: Vec<char>| v@).push(cur@) =~= pre.push(
                    seq![text@[i as int]],
                ));
            }
        } else {
            proof {
                assert(pre.last() == cur@);
                assert(pre.len() > 0);
            }
            cur.push(c);
            proof {
                assert(done@.map_values(|v: Vec<char>| v@).push(cur@) =~= pre.update(
                    pre.len() - 1,
                    pre.last().push(text@[i as int]),
                ));
            }
        }
        i = i + 1;
    }
    proof {
        assert(text@.take(text@.len() as int) =~= text@);
    }
    if cur.len() > 0 {
        done.push(cur);
    } else {
        proof {
            assert(done@.map_values(|v: Vec<char>| v@) =~= split_sentences(text@));
        }
    }
    done
}

/// Greedy grouping of sentences into chunks. `cur` is the chunk being
/// built and `cur_tokens` its accumulated token estimate (the sum of
/// its sentences' token counts). A sentence joins the current chunk
/// unless that would push the estimate over the budget; a sentence
/// that overruns the budget on its own still opens (and then fills)
/// its own chunk.
pub open spec fn group_rec(ss: Seq<Seq<char>>, cur: Seq<char>, cur_tokens: nat) -> Seq<Seq<char>>
    decreases ss.len(),
{
    if ss.len() == 0 {
        if cur.len() == 0 {
            Seq::empty()
        } else {
            seq![cur]
        }
    } else {
        let s0 = ss[0];
        let t0 = count_tokens(s0);
        if cur.len() > 0 && cur_tokens + t0 > TOKEN_BUDGET {
            seq![cur] + group_rec(ss.drop_first(), s0, t0)
        } else {
            group_rec(ss.drop_first(), cur + s0, cur_tokens + t0)
        }
    }
}

/// The chunks the greedy grouping makes of a sentence sequence.
pub open spec fn group_sentences(ss: Seq<Seq<char>>) -> Seq<Seq<char>> {
    group_rec(ss, Seq::empty(), 0)
}

/// Groups sentences into chunks as `group_sentences` defines it.
pub fn group_sentences_exec(sentences: &Vec<Vec<char>>) -> (r: Vec<Vec<char>>)
    ensures
        r@.map_values(|v: Vec<char>| v@) == group_sentences(
            sentences@.map_values(|v: Vec<char>| v@),
        ),
{
    let ghost ss = sentences@.map_values(|v: Vec<char>| v@);
    let mut groups: Vec<Vec<char>> = Vec::new();
    let mut cur: Vec<char> = Vec::new();
    let mut cur_tokens: u128 = 0;
    let mut i: usize = 0;
    proof {
        assert(ss.skip(0) =~= ss);
    }
    while i < sentences.len()
        invariant
            i <= sentences@.len(),
            ss == sentences@.map_values(|v: Vec<char>| v@),
            cur_tokens <= u64::MAX,
            cur@.len() == 0 ==> cur_tokens == count_tokens(cur@),
            group_sentences(ss) == groups@.map_values(|v: Vec<char>| v@) + group_rec(
                ss.skip(i as int),
                cur@,
                cur_tokens as nat,
            ),
        decreases sentences@.len() - i,
    {
        let ghost rem = ss.skip(i as int);
        proof {
            assert(rem[0] == ss[i as int]);
            assert(rem.drop_first() =~= ss.skip(i + 1));
        }
        let t0_usize = count_tokens_exec(&sentences[i]);
        let t0: u128 = t0_usize as u128;
        proof {
            assert(sentences@[i as int]@ == ss[i as int]);
        }
        if cur.len() > 0 && cur_tokens + t0 > TOKEN_BUDGET as u128 {
            let ghost old_groups = groups@.map_values(|v: Vec<char>| v@);
            let ghost old_cur = cur@;
            groups.push(cur);
            cur = copy_chars(&sentences[i]);
            cur_tokens = t0;
            proof {
                assert(groups@.map_values(|v: Vec<char>| v@) =~= old_groups.push(old_cur));
                assert(old_groups.push(old_cur) + group_rec(ss.skip(i + 1), cur@, cur_tokens as nat)
                    =~= old_groups + (seq![old_cur] + group_rec(
                    ss.skip(i + 1),
                    cur@,
                    cur_tokens as nat,
                )));
            }
        } else {
            let ghost old_cur = cur@;
            let mut sentence = copy_chars(&sentences[i]);
            cur.append(&mut sentence);
            cur_tokens = cur_tokens + t0;
            proof {
                assert(cur@ == old_cur + ss[i as int]);
            }
        }
        i = i + 1;
    }
    proof {
        assert(ss.skip(ss.len() as int) =~= Seq::<Seq<char>>::empty());
    }
    if cur.len() > 0 {
        let ghost old_groups = groups@.map_values(|v: Vec<char>| v@);
        groups.push(cur);
        proof {
            assert(groups@.map_values(|v: Vec<char>| v@) =~= old_groups.push(cur@));
            assert(old_groups + seq![cur@] =~= old_groups.push(cur@));
        }
    } else {
        proof {
            assert(groups@.map_values(|v: Vec<char>| v@) + Seq::<Seq<char>>::empty() =~= groups@
                .map_values(|v: Vec<char>| v@));
        }
    }
    groups
}

/// Cuts `s` into consecutive pieces of `psize` characters; the last
/// piece may be shorter. Requires `psize >= 1` to be meaningful.
pub open spec fn slice_into(s: Seq<char>, psize: nat) -> Seq<Seq<char>>
    decreases s.len(),
{
    if s.len() == 0 {
        Seq::empty()
    } else if psize == 0 || s.len() <= psize {
        seq![s]
    } else {
        seq![s.take(psize as int)] + slice_into(s.skip(psize as int), psize)
    }
}

/// The piece size used to re-slice an oversized chunk: the chunk is
/// cut into `⌈len/cap⌉` near-equal pieces of `⌈len/pieces⌉` characters.
pub open spec fn piece_size(len: nat) -> int {
    crate::spec_ceil_div(len as int, crate::spec_ceil_div(len as int, MAX_CHUNK_CHARS as int))
}

/// What becomes of one chunk: dropped if empty, kept if within the
/// hard cap, re-sliced into near-equal pieces otherwise.
pub open spec fn process_chunk(c: Seq<char>) -> Seq<Seq<char>> {
    if c.len() == 0 {
        Seq::empty()
    } else if c.len() <= MAX_CHUNK_CHARS {
        seq![c]
    } else {
        slice_into(c, piece_size(c.len()) as nat)
    }
}

/// The final chunk sequence: every oversized chunk re-sliced, every
/// empty chunk discarded.
pub open spec fn remove_large_spec(cs: Seq<Seq<char>>) -> Seq<Seq<char>>
    decreases cs.len(),
{
    if cs.len() == 0 {
        Seq::empty()
    } else {
        remove_large_spec(cs.drop_last()) + process_chunk(cs.last())
    }
}

/// For an oversized chunk the piece size is at least 1 and at most the
/// hard cap.
pub proof fn lemma_piece_size_bounds(len: nat)
    requires
        len > MAX_CHUNK_CHARS,
    ensures
        1 <= piece_size(len) <= MAX_CHUNK_CHARS,
{
    let cap = MAX_CHUNK_CHARS as int;
    let l = len as int;
    let k = crate::spec_ceil_div(l, cap);
    vstd::arithmetic::div_mod::lemma_div_is_ordered(cap, l + cap - 1, cap);
    vstd::arithmetic::div_mod::lemma_div_by_self(cap);
    assert(k >= 1);
    // k * cap >= l, from the division identity for (l + cap - 1) / cap.
    vstd::arithmetic::div_mod::lemma_fundamental_div_mod(l + cap - 1, cap);
    vstd::arithmetic::div_mod::lemma_mod_bound(l + cap - 1, cap);
    assert(cap * k >= l);
    // piece_size = (l + k - 1) / k <= (k * cap + k - 1) / k = cap.
    vstd::arithmetic::div_mod::lemma_div_is_ordered(l + k - 1, cap * k + (k - 1), k);
    vstd::arithmetic::div_mod::lemma_hoist_over_denominator(k - 1, cap, k as nat);
    assert((k - 1) / k == 0) by {
        vstd::arithmetic::div_mod::lemma_basic_div(k - 1, k);
    }
    assert(cap * k + (k - 1) == k * cap + (k - 1)) by {
        vstd::arithmetic::mul::lemma_mul_is_commutative(cap, k);
    }
    assert((k * cap + (k - 1)) / k == cap) by {
        vstd::arithmetic::div_mod::lemma_hoist_over_denominator(k - 1, cap, k as nat);
    }
    vstd::arithmetic::div_mod::lemma_div_is_ordered(k, l + k - 1, k);
    vstd::arithmetic::div_mod::lemma_div_by_self(k);
}

/// Every piece of `slice_into` is nonempty and at most `psize` long.
pub proof fn lemma_slice_into_bounds(s: Seq<char>, psize: nat)
    requires
        psize >= 1,
    ensures
        forall|i: int|
            0 <= i < slice_into(s, psize).len() ==> 0 < #[trigger] slice_into(s, psize)[i].len()
                <= psize,
    decreases s.len(),
{
    if s.len() > psize {
        lemma_slice_into_bounds(s.skip(psize as int), psize);
        assert(slice_into(s, psize)[0].len() == psize);
        assert(forall|i: int|
            1 <= i < slice_into(s, psize).len() ==> #[trigger] slice_into(s, psize)[i]
                == slice_into(s.skip(psize as int), psize)[i - 1]);
    }
}

/// The pieces of `slice_into` concatenate back to the sliced text.
pub proof fn lemma_slice_into_preserves(s: Seq<char>, psize: nat)
    requires
        psize >= 1,
    ensures
        slice_into(s, psize).flatten() == s,
    decreases s.len(),
{
    if s.len() == 0 {
        assert(slice_into(s, psize).flatten() =~= s);
    } else if s.len() <= psize {
        slice_into(s, psize).lemma_flatten_one_element();
        assert(slice_into(s, psize).flatten() =~= s);
    } else {
        lemma_slice_into_preserves(s.skip(psize as int), psize);
        let head = seq![s.take(psize as int)];
        let tail = slice_into(s.skip(psize as int), psize);
        assert((head + tail).drop_first() =~= tail);
        assert((head + tail).first() == s.take(psize as int));
        assert((head + tail).flatten() == (head + tail).first() + (head + tail)
            .drop_first().flatten());
        assert(s.take(psize as int) + s.skip(psize as int) =~= s);
    }
}

/// Every chunk of the final sequence is nonempty and within the cap.
pub proof fn lemma_remove_large_bounded(cs: Seq<Seq<char>>)
    ensures
        forall|i: int|
            0 <= i < remove_large_spec(cs).len() ==> 0 < #[trigger] remove_large_spec(cs)[i].len()
                <= MAX_CHUNK_CHARS,
    decreases cs.len(),
{
    if cs.len() > 0 {
        lemma_remove_large_bounded(cs.drop_last());
        let c = cs.last();
        let rest = remove_large_spec(cs.drop_last());
        let tail = process_chunk(c);
        if c.len() > MAX_CHUNK_CHARS {
            lemma_piece_size_bounds(c.len());
            lemma_slice_into_bounds(c, piece_size(c.len()) as nat);
        }
        assert(forall|i: int|
            0 <= i < rest.len() ==> #[trigger] remove_large_spec(cs)[i] == rest[i]);
        assert(forall|i: int|
            rest.len() <= i < remove_large_spec(cs).len() ==> #[trigger] remove_large_spec(cs)[i]
                == tail[i - rest.len()]);
    }
}

/// Copies `src[start..end]`.
fn copy_range(src: &Vec<char>, start: usize, end: usize) -> (r: Vec<char>)
    requires
        start <= end <= src@.len(),
    ensures
        r@ == src@.subrange(start as int, end as int),
{
    let mut out: Vec<char> = Vec::new();
    let mut i: usize = start;
    while i < end
        invariant
            start <= i <= end <= src@.len(),
            out@ == src@.subrange(start as int, i as int),
        decreases end - i,
    {
        out.push(src[i]);
        proof {
            assert(src@.subrange(start as int, i + 1) =~= src@.subrange(start as int, i as int)
                .push(src@[i as int]));
        }
        i = i + 1;
    }
    out
}

/// Re-slices every chunk whose character length exceeds the hard cap
/// into `⌈chars/cap⌉` near-equal pieces, and discards empty chunks.
pub fn remove_large_chunks(cur_chunks: &Vec<Vec<char>>) -> (r: Vec<Vec<char>>)
    ensures
        r@.map_values(|v: Vec<char>| v@) == remove_large_spec(
            cur_chunks@.map_values(|v: Vec<char>| v@),
        ),
{
    let ghost cs = cur_chunks@.map_values(|v: Vec<char>| v@);
    let mut out: Vec<Vec<char>> = Vec::new();
    let mut i: usize = 0;
    while i < cur_chunks.len()
        invariant
            i <= cur_chunks@.len(),
            cs == cur_chunks@.map_values(|v: Vec<char>| v@),
            out@.map_values(|v: Vec<char>| v@) == remove_large_spec(cs.take(i as int)),
        decreases cur_chunks@.len() - i,
    {
        let ghost pre = remove_large_spec(cs.take(i as int));
        let c = &cur_chunks[i];
        let ghost cv = cs[i as int];
        proof {
            assert(cs.take(i + 1).drop_last() =~= cs.take(i as int));
            assert(cs.take(i + 1).last() == cv);
        }
        if c.len() == 0 {
            proof {
                assert(pre + process_chunk(cv) =~= pre);
            }
        } else if c.len() <= MAX_CHUNK_CHARS {
            let ghost old_out = out@.map_values(|v: Vec<char>| v@);
            out.push(copy_chars(c));
            proof {
                assert(out@.map_values(|v: Vec<char>| v@) =~= old_out.push(cv));
                assert(old_out.push(cv) =~= pre + process_chunk(cv));
            }
        } else {
            let pieces = crate::ceil_div(c.len(), MAX_CHUNK_CHARS);
            let psize = crate::ceil_div(c.len(), pieces);
            proof {
                lemma_piece_size_bounds(cv.len());
                assert(psize == piece_size(cv.len()));
            }
            let mut j: usize = 0;
            let ghost mut emitted: Seq<Seq<char>> = Seq::empty();
            proof {
                assert(cv.skip(0) =~= cv);
                assert(pre + emitted =~= pre);
            }
            while j < c.len()
                invariant
                    j <= c@.len(),
                    cv == c@,
                    1 <= psize <= MAX_CHUNK_CHARS,
                    out@.map_values(|v: Vec<char>| v@) == pre + emitted,
                    emitted + slice_into(cv.skip(j as int), psize as nat) == slice_into(
                        cv,
                        piece_size(cv.len()) as nat,
                    ),
                    psize == piece_size(cv.len()),
                decreases c@.len() - j,
            {
                let ghost old_out = out@.map_values(|v: Vec<char>| v@);
                let ghost rem = cv.skip(j as int);
                if c.len() - j <= psize {
                    let piece = copy_range(c, j, c.len());
                    proof {
                        assert(piece@ =~= rem);
                        assert(slice_into(rem, psize as nat) =~= seq![rem]);
                    }
                    out.push(piece);
                    proof {
                        emitted = emitted.push(rem);
                        assert(out@.map_values(|v: Vec<char>| v@) =~= old_out.push(rem));
                        assert(emitted + slice_into(cv.skip(c@.len() as int), psize as nat)
                            =~= emitted);
                        assert(emitted =~= (emitted.drop_last() + seq![rem]));
                        assert(emitted.drop_last() + (seq![rem] + Seq::<Seq<char>>::empty())
                            =~= emitted);
                    }
                    j = c.len();
                } else {
                    let piece = copy_range(c, j, j + psize);
                    proof {
                        assert(piece@ =~= rem.take(psize as int));
                        assert(rem.skip(psize as int) =~= cv.skip(j + psize));
                    }
                    out.push(piece);
                    proof {
                        let old_emitted = emitted;
                        emitted = emitted.push(rem.take(psize as int));
                        assert(out@.map_values(|v: Vec<char>| v@) =~= old_out.push(rem.take(
                            psize as int,
                        )));
                        assert(slice_into(rem, psize as nat) == seq![rem.take(psize as int)]
                            + slice_into(cv.skip(j + psize), psize as nat));
                        assert(emitted + slice_into(cv.skip(j + psize), psize as nat)
                            =~= old_emitted + slice_into(rem, psize as nat));
                    }
                    j = j + psize;
                }
            }
            proof {
                assert(cv.skip(cv.len() as int) =~= Seq::<char>::empty());
                assert(slice_into(Seq::<char>::empty(), psize as nat)
                    =~= Seq::<Seq<char>>::empty());
                assert(emitted + Seq::<Seq<char>>::empty() =~= emitted);
                assert(emitted == slice_into(cv, piece_size(cv.len()) as nat));
                assert(process_chunk(cv) == emitted);
            }
        }
        i = i + 1;
    }
    proof {
        assert(cs.take(cs.len() as int) =~= cs);
    }
    out
}

/// The whole segmentation pipeline as a function of the plain text:
/// normalize newlines, split into sentences, group greedily under the
/// token budget, then re-slice oversized chunks and drop empty ones.
pub open spec fn spec_segment(text: Seq<char>) -> Seq<Seq<char>> {
    remove_large_spec(group_sentences(split_sentences(normalize_newlines(text))))
}

/// Segments plain text into bounded chunks, each carrying its
/// estimated token count. A pure function of the text.
pub fn segment(text: &Vec<char>) -> (r: Vec<Chunk>)
    ensures
        r@.map_values(|c: Chunk| c.text@) == spec_segment(text@),
        forall|i: int|
            0 <= i < r@.len() ==> #[trigger] r@[i].token_estimate == count_tokens(r@[i].text@),
{
    let normalized = normalize_newlines_exec(text);
    let sentences = split_sentences_exec(&normalized);
    let groups = group_sentences_exec(&sentences);
    let chunks = remove_large_chunks(&groups);
    let mut out: Vec<Chunk> = Vec::new();
    let mut i: usize = 0;
    while i < chunks.len()
        invariant
            i <= chunks@.len(),
            out@.map_values(|c: Chunk| c.text@) == chunks@.map_values(|v: Vec<char>| v@).take(
                i as int,
            ),
            forall|j: int|
                0 <= j < out@.len() ==> #[trigger] out@[j].token_estimate == count_tokens(
                    out@[j].text@,
                ),
        decreases chunks@.len() - i,
    {
        let ghost pre = out@.map_values(|c: Chunk| c.text@);
        let text_i = copy_chars(&chunks[i]);
        let token_estimate = count_tokens_exec(&text_i);
        out.push(Chunk { text: text_i, token_estimate });
        proof {
            let cv = chunks@.map_values(|v: Vec<char>| v@);
            assert(cv.take(i + 1) =~= cv.take(i as int).push(cv[i as int]));
            assert(out@.map_values(|c: Chunk| c.text@) =~= pre.push(chunks@[i as int]@));
        }
        i = i + 1;
    }
    proof {
        let cv = chunks@.map_values(|v: Vec<char>| v@);
        assert(cv.take(cv.len() as int) =~= cv);
    }
    out
}

/// Segmentation is deterministic: equal texts yield equal chunk
/// sequences.
pub proof fn lemma_segment_deterministic(t1: Seq<char>, t2: Seq<char>)
    requires
        t1 == t2,
    ensures
        spec_segment(t1) == spec_segment(t2),
{
}

/// Every chunk the segmenter produces is nonempty and at most
/// `MAX_CHUNK_CHARS` characters long.
pub proof fn lemma_segment_chunks_bounded(text: Seq<char>)
    ensures
        forall|i: int|
            0 <= i < spec_segment(text).len() ==> 0 < #[trigger] spec_segment(text)[i].len()
                <= MAX_CHUNK_CHARS,
{
    lemma_remove_large_bounded(group_sentences(split_sentences(normalize_newlines(text))));
}

/// Empty input yields an empty chunk sequence.
pub proof fn lemma_segment_empty(text: Seq<char>)
    requires
        text.len() == 0,
    ensures
        spec_segment(text).len() == 0,
{
    assert(normalize_newlines(text).len() == 0);
    assert(split_sentences(normalize_newlines(text)) =~= Seq::<Seq<char>>::empty());
}

/// The text content of a fragment of markup, as the HTML parser sees
/// it: the concatenation of the text nodes of the parsed fragment.
pub uninterp spec fn strip_of(html: Seq<char>) -> Seq<char>;

/// Relies on scraper's `Html::parse_fragment` and `ElementRef::text`:
/// parsing a fragment and concatenating its text nodes is a function
/// of the markup alone.
#[verifier::external_body]
fn strip_markup(document: &str) -> (r: Vec<char>)
    ensures
        r@ == strip_of(document@),
{
    let dom = scraper::Html::parse_fragment(document);
    let clean_text = dom.root_element().text().collect::<String>();
    clean_text.chars().collect()
}

/// Turns raw document markup into embedding-sized chunks: strips the
/// markup to plain text, then segments that text.
pub fn chunk_document(document: &str) -> (r: Vec<Chunk>)
    ensures
        r@.map_values(|c: Chunk| c.text@) == spec_segment(strip_of(document@)),
        forall|i: int|
            0 <= i < r@.len() ==> #[trigger] r@[i].token_estimate == count_tokens(r@[i].text@),
{
    let text = strip_markup(document);
    segment(&text)
}

} // verus!
