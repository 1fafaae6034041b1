//! The tokenizer: a version string is cut at its delimiters, each chunk is
//! cut once more where a leading run of letters meets the first number, and
//! every piece is lower-cased.

use crate::text::{
    ascii_lower_char, ascii_lowercase, char_is_numeric, chars_of, is_numeric, lowercase,
    to_lowercase,
};
use vstd::prelude::*;
use vstd::string::StrSliceExecFns;
use vstd::utf8::is_ascii_chars;

verus! {

/// The characters that separate the chunks of a version string.
pub open spec fn is_delimiter(c: char) -> bool {
    c == '-' || c == '_' || c == '.'
}

/// The chunks between the delimiters of `s`, read one character at a time:
/// a delimiter opens a new chunk, any other character extends the last one.
/// Two delimiters in a row enclose an empty chunk.
pub open spec fn chunks(s: Seq<char>) -> Seq<Seq<char>>
    decreases s.len(),
{
    if s.len() == 0 {
        seq![Seq::empty()]
    } else {
        let before = chunks(s.drop_last());
        if is_delimiter(s.last()) {
            before.push(Seq::empty())
        } else {
            before.update(before.len() - 1, before.last().push(s.last()))
        }
    }
}

/// How many characters stand before the first numeric character of `s`
/// (all of them, if none is numeric).
pub open spec fn alpha_prefix_len(s: Seq<char>) -> nat
    decreases s.len(),
{
    if s.len() == 0 || is_numeric(s[0]) {
        0
    } else {
        1 + alpha_prefix_len(s.drop_first())
    }
}

/// A chunk that holds a numeric character, but not as its first, is cut in
/// two before the first such character; any other chunk stays whole.
pub open spec fn alpha_and_number(s: Seq<char>) -> Seq<Seq<char>> {
    let k = alpha_prefix_len(s) as int;
    if 0 < k < s.len() {
        seq![s.take(k), s.skip(k)]
    } else {
        seq![s]
    }
}

/// The pieces of all chunks, in order.
pub open spec fn pieces_of(chunks: Seq<Seq<char>>) -> Seq<Seq<char>>
    decreases chunks.len(),
{
    if chunks.len() == 0 {
        Seq::empty()
    } else {
        pieces_of(chunks.drop_last()) + alpha_and_number(chunks.last())
    }
}

/// Each piece in lower case.
pub open spec fn lowered(pieces: Seq<Seq<char>>) -> Seq<Seq<char>> {
    Seq::new(pieces.len(), |i: int| lowercase(pieces[i]))
}

/// The tokens of a version string. The empty string has none.
pub open spec fn tokens_of(s: Seq<char>) -> Seq<Seq<char>> {
    if s.len() == 0 {
        Seq::empty()
    } else {
        lowered(pieces_of(chunks(s)))
    }
}

/// `alpha_prefix_len` is the first position that holds a numeric character.
pub proof fn lemma_alpha_prefix_len(s: Seq<char>, k: int)
    requires
        0 <= k <= s.len(),
        forall|j: int| 0 <= j < k ==> !is_numeric(#[trigger] s[j]),
        k == s.len() || is_numeric(s[k]),
    ensures
        alpha_prefix_len(s) == k,
    decreases k,
{
    if k > 0 {
        let rest = s.drop_first();
        assert forall|j: int| 0 <= j < k - 1 implies !is_numeric(#[trigger] rest[j]) by {
            assert(rest[j] == s[j + 1]);
        }
        lemma_alpha_prefix_len(rest, k - 1);
    }
}

/// No character of `s` is a delimiter.
pub open spec fn delimiter_free(s: Seq<char>) -> bool {
    forall|i: int| 0 <= i < s.len() ==> !is_delimiter(#[trigger] s[i])
}

/// A text always has at least one chunk.
pub proof fn lemma_chunks_len(s: Seq<char>)
    ensures
        chunks(s).len() >= 1,
    decreases s.len(),
{
    if s.len() > 0 {
        lemma_chunks_len(s.drop_last());
    }
}

/// A text without delimiters is one chunk.
pub proof fn lemma_chunks_single(s: Seq<char>)
    requires
        delimiter_free(s),
    ensures
        chunks(s) == seq![s],
    decreases s.len(),
{
    if s.len() == 0 {
        assert(s =~= Seq::<char>::empty());
    } else {
        let front = s.drop_last();
        assert forall|i: int| 0 <= i < front.len() implies !is_delimiter(#[trigger] front[i]) by {
            assert(front[i] == s[i]);
        }
        lemma_chunks_single(front);
        assert(front.push(s.last()) =~= s);
        assert(chunks(s) =~= seq![s]);
    }
}

/// A delimiter and a run without delimiters after a text add that run as
/// one more chunk.
pub proof fn lemma_chunks_append(a: Seq<char>, d: char, c: Seq<char>)
    requires
        is_delimiter(d),
        delimiter_free(c),
    ensures
        chunks(a.push(d) + c) == chunks(a).push(c),
    decreases c.len(),
{
    let whole = a.push(d) + c;
    if c.len() == 0 {
        assert(c =~= Seq::<char>::empty());
        assert(whole.drop_last() =~= a);
    } else {
        let front = c.drop_last();
        assert forall|i: int| 0 <= i < front.len() implies !is_delimiter(#[trigger] front[i]) by {
            assert(front[i] == c[i]);
        }
        lemma_chunks_append(a, d, front);
        assert(whole.drop_last() =~= a.push(d) + front);
        assert(whole.last() == c.last());
        assert(front.push(c.last()) =~= c);
        assert(chunks(whole) =~= chunks(a).push(c));
    }
}

/// One more chunk adds its pieces after those of the chunks before it.
pub proof fn lemma_pieces_push(chunks: Seq<Seq<char>>, chunk: Seq<char>)
    ensures
        pieces_of(chunks.push(chunk)) == pieces_of(chunks) + alpha_and_number(chunk),
{
    assert(chunks.push(chunk).drop_last() =~= chunks);
}

/// Every character of `s` is an ASCII character other than a delimiter.
pub open spec fn ascii_without_delimiter(s: Seq<char>) -> bool {
    forall|i: int|
        0 <= i < s.len() ==> '\0' <= (#[trigger] s[i]) <= '\u{7f}' && !is_delimiter(s[i])
}

/// The chunks of an ASCII text are ASCII and hold no delimiter.
pub proof fn lemma_chunks_of_ascii(s: Seq<char>)
    requires
        is_ascii_chars(s),
    ensures
        forall|k: int|
            0 <= k < chunks(s).len() ==> ascii_without_delimiter(#[trigger] chunks(s)[k]),
    decreases s.len(),
{
    if s.len() > 0 {
        let front = s.drop_last();
        assert(is_ascii_chars(front)) by {
            assert forall|i: int| 0 <= i < front.len() implies '\0' <= #[trigger] front[i]
                <= '\u{7f}' by {
                assert(front[i] == s[i]);
            }
        }
        lemma_chunks_of_ascii(front);
        lemma_chunks_len(front);
        let before = chunks(front);
        assert forall|k: int| 0 <= k < chunks(s).len() implies ascii_without_delimiter(
            #[trigger] chunks(s)[k],
        ) by {
            if k < before.len() - 1 {
                assert(chunks(s)[k] == before[k]);
            } else if is_delimiter(s.last()) {
                if k < before.len() {
                    assert(chunks(s)[k] == before[k]);
                }
            } else {
                let grown = before.last().push(s.last());
                assert(chunks(s)[k] == grown);
                assert(ascii_without_delimiter(before[before.len() - 1]));
                assert forall|i: int| 0 <= i < grown.len() implies '\0' <= (#[trigger] grown[i])
                    <= '\u{7f}' && !is_delimiter(grown[i]) by {
                    if i < before.last().len() {
                        assert(grown[i] == before.last()[i]);
                    } else {
                        assert(grown[i] == s[s.len() - 1]);
                    }
                }
            }
        }
    }
}

/// The pieces of chunks that are ASCII without delimiters are so too.
pub proof fn lemma_pieces_of_ascii(chunks: Seq<Seq<char>>)
    requires
        forall|k: int| 0 <= k < chunks.len() ==> ascii_without_delimiter(#[trigger] chunks[k]),
    ensures
        forall|k: int|
            0 <= k < pieces_of(chunks).len() ==> ascii_without_delimiter(
                #[trigger] pieces_of(chunks)[k],
            ),
    decreases chunks.len(),
{
    if chunks.len() > 0 {
        let front = chunks.drop_last();
        let last = chunks.last();
        assert forall|k: int| 0 <= k < front.len() implies ascii_without_delimiter(
            #[trigger] front[k],
        ) by {
            assert(front[k] == chunks[k]);
        }
        lemma_pieces_of_ascii(front);
        assert(ascii_without_delimiter(last));
        let cut = alpha_prefix_len(last) as int;
        assert forall|k: int| 0 <= k < alpha_and_number(last).len() implies ascii_without_delimiter(
            #[trigger] alpha_and_number(last)[k],
        ) by {
            let piece = alpha_and_number(last)[k];
            if 0 < cut < last.len() {
                assert forall|i: int| 0 <= i < piece.len() implies '\0' <= (#[trigger] piece[i])
                    <= '\u{7f}' && !is_delimiter(piece[i]) by {
                    if k == 0 {
                        assert(piece[i] == last[i]);
                    } else {
                        assert(piece[i] == last[i + cut]);
                    }
                }
            }
        }
        assert forall|k: int| 0 <= k < pieces_of(chunks).len() implies ascii_without_delimiter(
            #[trigger] pieces_of(chunks)[k],
        ) by {
            if k >= pieces_of(front).len() {
                assert(pieces_of(chunks)[k] == alpha_and_number(last)[k - pieces_of(front).len()]);
            } else {
                assert(pieces_of(chunks)[k] == pieces_of(front)[k]);
            }
        }
    }
}

/// The tokens of an ASCII text are ASCII and hold no delimiter.
pub proof fn lemma_tokens_of_ascii(s: Seq<char>)
    requires
        is_ascii_chars(s),
    ensures
        forall|k: int|
            0 <= k < tokens_of(s).len() ==> ascii_without_delimiter(#[trigger] tokens_of(s)[k]),
{
    if s.len() > 0 {
        lemma_chunks_of_ascii(s);
        lemma_pieces_of_ascii(chunks(s));
        let pieces = pieces_of(chunks(s));
        assert forall|k: int| 0 <= k < tokens_of(s).len() implies ascii_without_delimiter(
            #[trigger] tokens_of(s)[k],
        ) by {
            assert(tokens_of(s).len() == pieces.len());
            let piece = pieces[k];
            assert(ascii_without_delimiter(piece));
            assert(is_ascii_chars(piece));
            let token = tokens_of(s)[k];
            assert(token == ascii_lowercase(piece));
            assert forall|i: int| 0 <= i < token.len() implies '\0' <= (#[trigger] token[i])
                <= '\u{7f}' && !is_delimiter(token[i]) by {
                assert(token[i] == ascii_lower_char(piece[i]));
                assert(piece[i] <= '\u{7f}' && !is_delimiter(piece[i]));
            }
        }
    }
}

/// Cuts a chunk in two before its first numeric character, if other
/// characters precede it.
pub fn split_alpha_and_number<'a>(s: &'a str) -> (pieces: Vec<&'a str>)
    ensures
        pieces.deep_view() == alpha_and_number(s@),
{
    let chars = chars_of(s);
    let n = chars.len();
    let mut k: usize = 0;
    while k < n
        invariant
            n == chars.len(),
            k <= n,
            forall|j: int| 0 <= j < k ==> !is_numeric(#[trigger] chars@[j]),
        ensures
            k == n || is_numeric(chars@[k as int]),
        decreases n - k,
    {
        if char_is_numeric(chars[k]) {
            break;
        }
        k += 1;
    }
    proof {
        lemma_alpha_prefix_len(s@, k as int);
    }
    let mut pieces: Vec<&'a str> = Vec::new();
    if 0 < k && k < n {
        pieces.push(s.substring_char(0, k));
        pieces.push(s.substring_char(k, n));
        assert(pieces.deep_view() =~= alpha_and_number(s@));
    } else {
        pieces.push(s);
        assert(pieces.deep_view() =~= alpha_and_number(s@));
    }
    pieces
}

/// Appends the lower-cased pieces of one chunk to `tokens`.
fn push_chunk(tokens: &mut Vec<String>, chunk: &str)
    ensures
        final(tokens).deep_view() == old(tokens).deep_view() + lowered(alpha_and_number(chunk@)),
{
    let pieces = split_alpha_and_number(chunk);
    let ghost before = tokens.deep_view();
    let ghost split = alpha_and_number(chunk@);
    let mut i: usize = 0;
    while i < pieces.len()
        invariant
            i <= pieces.len(),
            pieces.deep_view() == split,
            tokens.deep_view() == before + lowered(split.take(i as int)),
        decreases pieces.len() - i,
    {
        let piece: &str = pieces[i];
        assert(piece@ == pieces.deep_view()[i as int]);
        let token = to_lowercase(piece);
        let ghost old_tokens = tokens.deep_view();
        tokens.push(token);
        i += 1;
        assert(tokens.deep_view() =~= old_tokens.push(token@));
        assert(tokens.deep_view() =~= before + lowered(split.take(i as int)));
    }
    assert(split.take(pieces.len() as int) =~= split);
}

/// Unfolds `chunks` at a character that is no delimiter.
proof fn lemma_chunks_extend(s: Seq<char>, done: Seq<Seq<char>>, start: int, i: int)
    requires
        0 <= start <= i < s.len(),
        !is_delimiter(s[i]),
        chunks(s.take(i)) == done.push(s.subrange(start, i)),
    ensures
        chunks(s.take(i + 1)) == done.push(s.subrange(start, i + 1)),
{
    assert(s.take(i + 1).drop_last() =~= s.take(i));
    assert(s.subrange(start, i).push(s[i]) =~= s.subrange(start, i + 1));
    assert(chunks(s.take(i + 1)) =~= done.push(s.subrange(start, i + 1)));
}

/// Unfolds `chunks` at a delimiter.
proof fn lemma_chunks_close(s: Seq<char>, done: Seq<Seq<char>>, start: int, i: int)
    requires
        0 <= start <= i < s.len(),
        is_delimiter(s[i]),
        chunks(s.take(i)) == done.push(s.subrange(start, i)),
    ensures
        chunks(s.take(i + 1)) == done.push(s.subrange(start, i)).push(
            s.subrange(i + 1, i + 1),
        ),
{
    assert(s.take(i + 1).drop_last() =~= s.take(i));
    assert(s.subrange(i + 1, i + 1) =~= Seq::<char>::empty());
}

/// Splits a version string into its lower-case tokens.
pub fn tokenize(s: &str) -> (tokens: Vec<String>)
    ensures
        tokens.deep_view() == tokens_of(s@),
{
    let chars = chars_of(s);
    let n = chars.len();
    let mut tokens: Vec<String> = Vec::new();
    if n == 0 {
        assert(tokens.deep_view() =~= tokens_of(s@));
        return tokens;
    }
    let ghost mut done: Seq<Seq<char>> = Seq::empty();
    let mut start: usize = 0;
    let mut i: usize = 0;
    assert(s@.subrange(0, 0) =~= Seq::<char>::empty());
    assert(chunks(s@.take(0)) =~= done.push(s@.subrange(0, 0)));
    assert(tokens.deep_view() =~= lowered(pieces_of(done)));
    while i < n
        invariant
            start <= i <= n,
            n == chars.len(),
            chars@ == s@,
            chunks(s@.take(i as int)) == done.push(s@.subrange(start as int, i as int)),
            tokens.deep_view() == lowered(pieces_of(done)),
        decreases n - i,
    {
        let c = chars[i];
        if c == '-' || c == '_' || c == '.' {
            let chunk = s.substring_char(start, i);
            let ghost before = tokens.deep_view();
            push_chunk(&mut tokens, chunk);
            proof {
                lemma_chunks_close(s@, done, start as int, i as int);
                let closed = done.push(chunk@);
                assert(closed.drop_last() =~= done);
                assert(tokens.deep_view() =~= lowered(pieces_of(closed)));
                done = closed;
            }
            start = i + 1;
        } else {
            proof {
                lemma_chunks_extend(s@, done, start as int, i as int);
            }
        }
        i += 1;
    }
    let chunk = s.substring_char(start, n);
    push_chunk(&mut tokens, chunk);
    proof {
        assert(s@.take(n as int) =~= s@);
        let closed = done.push(chunk@);
        assert(closed.drop_last() =~= done);
        assert(tokens.deep_view() =~= lowered(pieces_of(closed)));
    }
    tokens
}

} // verus!
