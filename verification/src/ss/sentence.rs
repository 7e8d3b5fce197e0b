//! Sentences out of a stream of tokens.
use vstd::prelude::*;
use vstd::utf8::encode_utf8;

use crate::text;

verus! {

/// A buffer of more bytes than this is cut wherever it is.
pub const LONGEST_BUFFER: usize = 300;

/// A buffer of more bytes than this is cut at the next white space.
pub const LONG_BUFFER: usize = 200;

/// A buffer of more bytes than this is cut after the end of a sentence.
pub const SHORT_BUFFER: usize = 15;

// ---------------------------------------------------------------------------
// Where a buffer is cut
// ---------------------------------------------------------------------------

/// The number of bytes that a text takes in UTF-8.
pub open spec fn byte_len(s: Seq<char>) -> nat {
    encode_utf8(s).len()
}

/// A character that ends a sentence.
pub open spec fn ends_sentence(c: char) -> bool {
    c == '.' || c == '?' || c == '!'
}

/// The text ends with white space.
pub open spec fn ends_blank(s: Seq<char>) -> bool {
    s.len() > 0 && text::white_space(s.last())
}

/// The text, in a buffer, is cut out of it now: it is very long; or it is long and ends
/// with white space; or it is not short and ends with the end of a sentence and one
/// white space after that.
pub open spec fn flushes(s: Seq<char>) -> bool {
    ||| byte_len(s) > LONGEST_BUFFER
    ||| byte_len(s) > LONG_BUFFER && ends_blank(s)
    ||| byte_len(s) > SHORT_BUFFER && s.len() >= 2 && ends_sentence(s[s.len() - 2]) && ends_blank(s)
}

/// The text was nowhere cut while it grew, character by character.
pub open spec fn unbroken(s: Seq<char>) -> bool {
    forall|i: int| 0 <= i <= s.len() ==> !flushes(#[trigger] s.take(i))
}

/// The pieces that are cut out of a buffer while a text is added to it, and what is left
/// in the buffer.
pub open spec fn cut(buffer: Seq<char>, added: Seq<char>) -> (Seq<Seq<char>>, Seq<char>)
    decreases added.len(),
{
    if added.len() == 0 {
        (Seq::empty(), buffer)
    } else {
        let (pieces, rest) = cut(buffer, added.drop_last());
        let grown = rest.push(added.last());
        if flushes(grown) {
            (pieces.push(grown), Seq::empty())
        } else {
            (pieces, grown)
        }
    }
}

/// The sentences that pieces give: each without the white space around it, and without
/// those that are white space alone.
pub open spec fn spoken(pieces: Seq<Seq<char>>) -> Seq<Seq<char>>
    decreases pieces.len(),
{
    if pieces.len() == 0 {
        Seq::empty()
    } else {
        let before = spoken(pieces.drop_last());
        let sentence = text::trimmed(pieces.last());
        if sentence.len() > 0 {
            before.push(sentence)
        } else {
            before
        }
    }
}

/// Pieces one after the other.
pub open spec fn joined(pieces: Seq<Seq<char>>) -> Seq<char>
    decreases pieces.len(),
{
    if pieces.len() == 0 {
        Seq::empty()
    } else {
        joined(pieces.drop_last()) + pieces.last()
    }
}

/// What a list of strings holds.
pub open spec fn texts(list: Seq<String>) -> Seq<Seq<char>> {
    list.map_values(|s: String| s@)
}

/// A character takes one to four bytes.
proof fn lemma_push_bytes(s: Seq<char>, c: char)
    ensures
        byte_len(s) + 1 <= byte_len(s.push(c)) <= byte_len(s) + 4,
    decreases s.len(),
{
    if s.len() == 0 {
        assert(s.push(c).drop_first() == s);
        reveal_with_fuel(encode_utf8, 2);
    } else {
        assert(s.push(c).drop_first() == s.drop_first().push(c));
        lemma_push_bytes(s.drop_first(), c);
    }
}

/// A text that is not cut takes at most the longest buffer's bytes.
proof fn lemma_unbroken(s: Seq<char>)
    requires
        unbroken(s),
    ensures
        !flushes(s),
        byte_len(s) <= LONGEST_BUFFER,
{
    assert(s.take(s.len() as int) == s);
}

proof fn lemma_unbroken_grows(s: Seq<char>, c: char)
    requires
        unbroken(s),
        !flushes(s.push(c)),
    ensures
        unbroken(s.push(c)),
{
    let t = s.push(c);
    assert forall|i: int| 0 <= i <= t.len() implies !flushes(#[trigger] t.take(i)) by {
        if i < t.len() {
            assert(t.take(i) == s.take(i));
        } else {
            assert(t.take(i) == t);
        }
    }
}

proof fn lemma_unbroken_empty()
    ensures
        unbroken(Seq::<char>::empty()),
{
    let s = Seq::<char>::empty();
    assert forall|i: int| 0 <= i <= s.len() implies !flushes(#[trigger] s.take(i)) by {
        assert(s.take(i) == s);
    }
}

// ---------------------------------------------------------------------------
// Laws
// ---------------------------------------------------------------------------

/// It makes no difference how a text is divided into tokens: the sentences, and what is
/// left in the buffer, are the same.
pub proof fn law_tokens_make_no_difference(buffer: Seq<char>, first: Seq<char>, second: Seq<char>)
    ensures
        ({
            let (pieces, rest) = cut(buffer, first);
            let (more, left) = cut(rest, second);
            &&& cut(buffer, first + second) == (pieces + more, left)
            &&& spoken(pieces + more) == spoken(pieces) + spoken(more)
        }),
    decreases second.len(),
{
    let (pieces, rest) = cut(buffer, first);
    let (more, left) = cut(rest, second);
    if second.len() == 0 {
        assert(first + second == first);
        assert(pieces + more == pieces);
    } else {
        law_tokens_make_no_difference(buffer, first, second.drop_last());
        assert((first + second).drop_last() == first + second.drop_last());
        let (more2, left2) = cut(rest, second.drop_last());
        let grown = left2.push(second.last());
        if flushes(grown) {
            assert(pieces + more == (pieces + more2).push(grown));
        }
    }
    lemma_spoken_concat(pieces, more);
}

proof fn lemma_spoken_concat(a: Seq<Seq<char>>, b: Seq<Seq<char>>)
    ensures
        spoken(a + b) == spoken(a) + spoken(b),
    decreases b.len(),
{
    if b.len() == 0 {
        assert(a + b == a);
    } else {
        lemma_spoken_concat(a, b.drop_last());
        assert((a + b).drop_last() == a + b.drop_last());
    }
}

/// No text is lost: the pieces and what is left in the buffer are, one after the other,
/// what was in the buffer and what was added.
pub proof fn law_no_text_is_lost(buffer: Seq<char>, added: Seq<char>)
    ensures
        joined(cut(buffer, added).0) + cut(buffer, added).1 == buffer + added,
    decreases added.len(),
{
    let (pieces, rest) = cut(buffer, added);
    if added.len() > 0 {
        law_no_text_is_lost(buffer, added.drop_last());
        let (pieces2, rest2) = cut(buffer, added.drop_last());
        let grown = rest2.push(added.last());
        if flushes(grown) {
            assert(pieces.drop_last() == pieces2);
            assert(joined(pieces) == joined(pieces2) + grown);
        }
        assert(joined(pieces) + rest == (joined(pieces2) + rest2).push(added.last()));
        assert(buffer + added == (buffer + added.drop_last()).push(added.last()));
    }
}

/// Every sentence is cut out as soon as it is complete and no sooner, and no piece and no
/// buffer is longer than the bounds say.
pub proof fn law_cut_at_once(buffer: Seq<char>, added: Seq<char>)
    requires
        unbroken(buffer),
    ensures
        unbroken(cut(buffer, added).1),
        byte_len(cut(buffer, added).1) <= LONGEST_BUFFER,
        forall|i: int|
            0 <= i < cut(buffer, added).0.len() ==> {
                let piece = #[trigger] cut(buffer, added).0[i];
                &&& piece.len() > 0
                &&& flushes(piece)
                &&& unbroken(piece.drop_last())
                &&& byte_len(piece) <= LONGEST_BUFFER + 4
            },
    decreases added.len(),
{
    if added.len() > 0 {
        law_cut_at_once(buffer, added.drop_last());
        let (pieces2, rest2) = cut(buffer, added.drop_last());
        let grown = rest2.push(added.last());
        assert(grown.drop_last() == rest2);
        lemma_push_bytes(rest2, added.last());
        if flushes(grown) {
            lemma_unbroken_empty();
        } else {
            lemma_unbroken_grows(rest2, added.last());
        }
    }
    lemma_unbroken(cut(buffer, added).1);
}

/// Every sentence has something to say, and no white space around it.
pub proof fn law_sentences_are_trimmed(pieces: Seq<Seq<char>>, i: int)
    requires
        0 <= i < spoken(pieces).len(),
    ensures
        spoken(pieces)[i].len() > 0,
        text::trimmed(spoken(pieces)[i]) == spoken(pieces)[i],
    decreases pieces.len(),
{
    text::law_trim_is_idempotent(pieces.last());
    if i < spoken(pieces.drop_last()).len() {
        law_sentences_are_trimmed(pieces.drop_last(), i);
    }
}

/// When a text is cut out of the buffer, in its own terms: on the character that completes
/// it, if it then takes more than 300 bytes; or more than 200 and ends with white space; or
/// more than 15 and ends with `.`, `?` or `!` and one white space of any kind, be it a space,
/// a tab or the end of a line. On any other character it stays in the buffer.
pub proof fn law_complete_text_is_cut_out(buffer: Seq<char>, c: char)
    ensures
        ({
            let s = buffer.push(c);
            let bytes = encode_utf8(s).len();
            let complete = {
                ||| bytes > 300
                ||| bytes > 200 && text::white_space(c)
                ||| bytes > 15 && text::white_space(c) && buffer.len() > 0 && (buffer.last() == '.'
                    || buffer.last() == '?' || buffer.last() == '!')
            };
            cut(buffer, seq![c]) == (if complete {
                (seq![s], Seq::<char>::empty())
            } else {
                (Seq::<Seq<char>>::empty(), s)
            })
        }),
{
    let one = seq![c];
    assert(one.drop_last() == Seq::<char>::empty());
    assert(cut(buffer, one.drop_last()) == (Seq::<Seq<char>>::empty(), buffer));
    assert(one.last() == c);
    let s = buffer.push(c);
    assert(s.last() == c);
    if buffer.len() > 0 {
        assert(s[s.len() - 2] == buffer.last());
    }
    assert(Seq::<Seq<char>>::empty().push(s) == seq![s]);
}

/// Nothing is cut where nothing is added.
pub proof fn law_nothing_added_nothing_cut(buffer: Seq<char>)
    ensures
        cut(buffer, Seq::<char>::empty()) == (Seq::<Seq<char>>::empty(), buffer),
{
}

/// Each piece that has something to say is spoken, in its turn, without the white space
/// around it; one that is white space alone is not.
pub proof fn law_pieces_are_spoken(pieces: Seq<Seq<char>>, piece: Seq<char>)
    ensures
        spoken(Seq::<Seq<char>>::empty()) == Seq::<Seq<char>>::empty(),
        (exists|i: int| 0 <= i < piece.len() && !text::white_space(#[trigger] piece[i])) ==> spoken(
            pieces.push(piece),
        ) == spoken(pieces).push(text::trimmed(piece)),
        (forall|i: int| 0 <= i < piece.len() ==> text::white_space(#[trigger] piece[i])) ==> spoken(
            pieces.push(piece),
        ) == spoken(pieces),
{
    assert(pieces.push(piece).drop_last() == pieces);
    let range = text::law_trimmed(piece);
    let t = text::trimmed(piece);
    if t.len() > 0 {
        assert(t[0] == piece[range.0]);
    } else if exists|i: int| 0 <= i < piece.len() && !text::white_space(#[trigger] piece[i]) {
        let i = choose|i: int| 0 <= i < piece.len() && !text::white_space(#[trigger] piece[i]);
        assert(!(0 <= i < range.0 || range.1 <= i < piece.len()));
    }
}

/// A text that is shortened for a log is its beginning, and three dots; one that is short
/// enough is left as it is.
pub proof fn law_shortened(s: Seq<char>, len: nat)
    ensures
        s.len() <= len ==> shortened(s, len) == s,
        s.len() > len ==> {
            &&& shortened(s, len).len() == len + 3
            &&& forall|i: int| 0 <= i < len ==> #[trigger] shortened(s, len)[i] == s[i]
            &&& forall|i: int| len <= i < len + 3 ==> #[trigger] shortened(s, len)[i] == '.'
        },
{
    reveal_strlit("...");
}

/// The texts of a list are those of its strings, one by one.
pub proof fn law_texts(list: Seq<String>)
    ensures
        texts(list).len() == list.len(),
        forall|i: int| 0 <= i < list.len() ==> #[trigger] texts(list)[i] == list[i]@,
{
}

// ---------------------------------------------------------------------------
// The accumulator
// ---------------------------------------------------------------------------

/// Accumulates tokens into sentences.
#[derive(Debug)]
pub struct SentenceAccumulator {
    buffer: String,
    sentence_end_chars: Vec<char>,
}

impl View for SentenceAccumulator {
    type V = Seq<char>;

    closed spec fn view(&self) -> Seq<char> {
        self.buffer@
    }
}

impl SentenceAccumulator {
    /// The characters that end a sentence are in place.
    pub closed spec fn equipped(&self) -> bool {
        self.sentence_end_chars@ == seq!['.', '?', '!']
    }

    /// Nothing that should have been cut out is in the buffer.
    pub open spec fn wf(&self) -> bool {
        self.equipped() && unbroken(self@)
    }

    pub fn new() -> (acc: Self)
        ensures
            acc.wf(),
            acc@ == Seq::<char>::empty(),
    {
        proof {
            lemma_unbroken_empty();
        }
        let sentence_end_chars: Vec<char> = vec!['.', '?', '!'];
        assert(sentence_end_chars@ =~= seq!['.', '?', '!']);
        SentenceAccumulator { buffer: String::new(), sentence_end_chars }
    }

    /// Adds a token. Returns the sentences that it completes.
    pub fn add_token(&mut self, token: &str) -> (sentences: Vec<String>)
        requires
            old(self).wf(),
        ensures
            final(self).wf(),
            final(self)@ == cut(old(self)@, token@).1,
            texts(sentences@) == spoken(cut(old(self)@, token@).0),
    {
        let mut sentences: Vec<String> = Vec::new();
        let ghost start = self@;
        assert(token@.take(0) == Seq::<char>::empty());
        assert(texts(sentences@) == Seq::<Seq<char>>::empty());
        for ch in it: token.chars()
            invariant
                it.seq() == token@,
                self.wf(),
                self@ == cut(start, token@.take(it.index())).1,
                texts(sentences@) == spoken(cut(start, token@.take(it.index())).0),
        {
            let ghost seen = token@.take(it.index());
            let ghost next = token@.take(it.index() + 1);
            let ghost before = self@;
            let ghost pieces = cut(start, seen).0;
            proof {
                assert(next.drop_last() == seen);
                assert(next.last() == ch);
                lemma_push_bytes(self@, ch);
                lemma_unbroken(self@);
            }
            self.buffer.push(ch);
            if self.should_flush() {
                proof {
                    assert(pieces.push(self@) == pieces + seq![self@]);
                    lemma_spoken_concat(pieces, seq![self@]);
                }
                self.flush_buffer(&mut sentences);
            } else {
                proof {
                    lemma_unbroken_grows(before, ch);
                }
            }
        }
        assert(token@.take(token@.len() as int) == token@);
        sentences
    }

    /// Whether the buffer is to be cut out as a sentence now.
    pub fn should_flush(&self) -> (res: bool)
        requires
            self.equipped(),
            byte_len(self@) <= usize::MAX,
        ensures
            res == flushes(self@),
    {
        let s = self.buffer.as_str();
        let len: usize = s.len();
        if len > LONGEST_BUFFER {
            return true;
        }
        let count: usize = s.unicode_len();
        let blank = count > 0 && text::is_white_space(s.get_char(count - 1));
        if len > LONG_BUFFER && blank {
            return true;
        }
        if len > SHORT_BUFFER {
            if let Some(second) = get_second_to_last_char(s) {
                return self.is_sentence_end(second) && blank;
            }
        }
        false
    }

    fn is_sentence_end(&self, c: char) -> (res: bool)
        requires
            self.equipped(),
        ensures
            res == ends_sentence(c),
    {
        let mut i: usize = 0;
        while i < self.sentence_end_chars.len()
            invariant
                i <= self.sentence_end_chars.len(),
                self.equipped(),
                forall|j: int| 0 <= j < i ==> self.sentence_end_chars@[j] != c,
            decreases self.sentence_end_chars.len() - i,
        {
            if self.sentence_end_chars[i] == c {
                return true;
            }
            i += 1;
        }
        proof {
            let ends = self.sentence_end_chars@;
            assert(ends[0] != c && ends[1] != c && ends[2] != c);
        }
        false
    }

    /// Empties the buffer, and appends what it held to `sentences` unless that is white
    /// space alone.
    pub fn flush_buffer(&mut self, sentences: &mut Vec<String>)
        requires
            old(self).equipped(),
        ensures
            final(self).wf(),
            final(self)@ == Seq::<char>::empty(),
            texts(final(sentences)@) == texts(old(sentences)@) + spoken(seq![old(self)@]),
    {
        let ghost one = seq![self@];
        proof {
            lemma_unbroken_empty();
            reveal_with_fuel(spoken, 2);
            assert(one.drop_last() == Seq::<Seq<char>>::empty());
        }
        let sentence = text::trim(self.buffer.as_str());
        if !sentence.as_str().is_empty() {
            let ghost list = sentences@;
            sentences.push(sentence);
            assert(texts(sentences@) == texts(list).push(sentence@));
        }
        self.buffer = String::new();
    }

    /// Empties the buffer and returns what it held, unless that is white space alone. For
    /// the end of a conversation, where nothing follows that would complete the sentence.
    pub fn complete_sentence(&mut self) -> (sentence: Option<String>)
        requires
            old(self).wf(),
        ensures
            final(self).wf(),
            final(self)@ == Seq::<char>::empty(),
            match sentence {
                Some(s) => s@.len() > 0 && s@ == text::trimmed(old(self)@),
                None => text::trimmed(old(self)@).len() == 0,
            },
    {
        proof {
            lemma_unbroken_empty();
        }
        let sentence = text::trim(self.buffer.as_str());
        self.buffer = String::new();
        if !sentence.as_str().is_empty() {
            Some(sentence)
        } else {
            None
        }
    }

    /// Empties the buffer and forgets what it held.
    pub fn clear_buffer(&mut self)
        requires
            old(self).wf(),
        ensures
            final(self).wf(),
            final(self)@ == Seq::<char>::empty(),
    {
        proof {
            lemma_unbroken_empty();
        }
        self.buffer = String::new();
    }
}

// ---------------------------------------------------------------------------
// Texts
// ---------------------------------------------------------------------------

/// The character before the last one.
pub fn get_second_to_last_char(s: &str) -> (res: Option<char>)
    ensures
        res == (if s@.len() >= 2 {
            Some(s@[s@.len() - 2])
        } else {
            None
        }),
{
    let count: usize = s.unicode_len();
    if count >= 2 {
        Some(s.get_char(count - 2))
    } else {
        None
    }
}

/// The text as it is shown in a log: its first `len` characters and three dots, where it
/// has more.
pub open spec fn shortened(s: Seq<char>, len: nat) -> Seq<char> {
    if s.len() > len {
        s.take(len as int) + "..."@
    } else {
        s
    }
}

/// Shortens a text for a log.
pub fn truncate(s: &str, len: usize) -> (res: String)
    ensures
        res@ == shortened(s@, len as nat),
{
    if s.unicode_len() > len {
        let mut out = String::new();
        let v = text::characters(s);
        let start = text::string_of(&v, 0, len);
        out.append(start.as_str());
        out.append("...");
        assert(v@.subrange(0, len as int) == s@.take(len as int));
        out
    } else {
        s.to_owned()
    }
}

} // verus!
