//! The bounded fetcher: response bodies arrive in chunks and are kept as text up to a
//! fixed byte budget, cut only where a character ends. Where chunks begin and end
//! makes no difference to text that is well-formed as a whole.

use crate::utf8::{
    decode, decoding_error, is_unfinished, lemma_encode_utf8_concat,
    lemma_first_scalar_of_prefix,
    lemma_rest_has_no_valid_prefix,
    lemma_rest_unfinished, lemma_unfinished_not_valid, lemma_valid_prefix_len,
    lemma_valid_prefix_len_after, lemma_valid_prefix_len_of_cut, lemma_valid_utf8_tail,
    unfinished, valid_prefix_len, valid_up_to,
};
use vstd::prelude::*;
use vstd::slice::{slice_subrange, slice_to_vec};
use vstd::string::*;
use vstd::utf8::*;

verus! {

/// The most bytes of text ever kept from one response body: 1 MiB.
pub const MAX_SIZE: usize = 1024 * 1024;

/// Why a fetch gave no text.
#[derive(Debug, PartialEq, Eq)]
pub enum FetchError {
    /// The request failed in transit: no connection, a timeout, a broken stream.
    Transport(String),
    /// The body was not well-formed UTF-8.
    Encoding(String),
}

impl FetchError {
    /// The human-readable description this error carries.
    pub open spec fn text(&self) -> Seq<char> {
        match self {
            FetchError::Transport(message) => message@,
            FetchError::Encoding(message) => message@,
        }
    }

    /// The description, handed out as the flat text under which a failure is kept.
    pub fn into_message(self) -> (message: String)
        ensures
            message@ == self.text(),
    {
        match self {
            FetchError::Transport(message) => message,
            FetchError::Encoding(message) => message,
        }
    }
}

/// What the reader of a body should do after handing over a chunk.
#[derive(Debug, Clone, Copy, PartialEq, Eq, Structural)]
pub enum Progress {
    /// The budget is not used up: read the next chunk.
    More,
    /// The text is complete: stop reading, whatever is left of the body.
    Done,
}

/// The effect of one chunk on what is held so far.
pub enum Absorbed {
    /// All of the chunk was taken: these are the bytes of the text now held, and the
    /// bytes held back, which are nothing or the unfinished start of a character.
    More(Seq<u8>, Seq<u8>),
    /// The budget was reached: these are the bytes of the text, which is complete.
    Full(Seq<u8>),
    /// The bytes are no text; this is the description of what is wrong with them.
    Invalid(Seq<char>),
}

/// The effect of `chunk` on an accumulator that holds the text `held` and holds back
/// the bytes `pending`.
///
/// The bytes held back and the chunk are read as one. Where they fit the budget, all
/// that is well-formed is appended, the unfinished start of a character at the end is
/// held back for the next chunk, and anything else at the end is refused. Where they do
/// not fit, they are cut to the budget and back to the end of the last complete
/// character, and the text is complete. Only the leading bytes of a body are refused
/// there: where no text is held, nothing can be kept, and the first byte begins no
/// character at all.
pub open spec fn absorb(held: Seq<u8>, pending: Seq<u8>, chunk: Seq<u8>) -> Absorbed {
    let data = pending + chunk;
    let room = MAX_SIZE - held.len();
    if data.len() <= room {
        let fit = valid_prefix_len(data) as int;
        let rest = data.skip(fit);
        if rest.len() == 0 || unfinished(rest) {
            Absorbed::More(held + data.subrange(0, fit), rest)
        } else {
            Absorbed::Invalid(decoding_error(data))
        }
    } else {
        let head = data.subrange(0, room);
        let fit = valid_prefix_len(head) as int;
        if fit > 0 || room == 0 || unfinished(head) || held.len() > 0 {
            Absorbed::Full(held + head.subrange(0, fit))
        } else {
            Absorbed::Invalid(decoding_error(head))
        }
    }
}

/// What a body yields when it ends: the text held, unless bytes are still held back,
/// for then the body ended inside a character.
pub open spec fn settle(held: Seq<u8>, pending: Seq<u8>) -> Result<Seq<u8>, Seq<char>> {
    if pending.len() == 0 {
        Ok(held)
    } else {
        Err(decoding_error(pending))
    }
}

/// What the chunks of a body yield, taken in order on top of `held` and `pending`:
/// the bytes of the text, or the description of what is wrong with the body.
pub open spec fn absorb_all(held: Seq<u8>, pending: Seq<u8>, chunks: Seq<Seq<u8>>) -> Result<
    Seq<u8>,
    Seq<char>,
>
    decreases chunks.len(),
{
    if chunks.len() == 0 {
        settle(held, pending)
    } else {
        match absorb(held, pending, chunks.first()) {
            Absorbed::More(text, rest) => absorb_all(text, rest, chunks.drop_first()),
            Absorbed::Full(text) => Ok(text),
            Absorbed::Invalid(message) => Err(message),
        }
    }
}

/// What a fetch yields, given the chunks its body arrives in.
pub open spec fn fetched(chunks: Seq<Seq<u8>>) -> Result<Seq<u8>, Seq<char>> {
    absorb_all(Seq::empty(), Seq::empty(), chunks)
}

/// A body as it is kept: whole where it fits the budget, else its first `MAX_SIZE`
/// bytes, cut back to the end of their last complete character.
pub open spec fn clipped(body: Seq<u8>) -> Seq<u8> {
    if body.len() <= MAX_SIZE {
        body
    } else {
        body.subrange(0, valid_prefix_len(body.subrange(0, MAX_SIZE as int)) as int)
    }
}

/// No character begins `bytes`: neither a well-formed one, nor one that more bytes
/// could finish.
pub open spec fn begins_no_character(bytes: Seq<u8>) -> bool {
    &&& bytes.len() > 0
    &&& !valid_first_scalar(bytes)
    &&& forall|k: int| 1 <= k <= bytes.len() ==> !unfinished(#[trigger] bytes.subrange(0, k))
}

/// The contents of a list of chunks.
pub open spec fn chunk_bytes(chunks: Seq<Vec<u8>>) -> Seq<Seq<u8>> {
    chunks.map_values(|chunk: Vec<u8>| chunk@)
}

/// The one and the other, joined.
fn joined(one: &[u8], other: &[u8]) -> (both: Vec<u8>)
    ensures
        both@ == one@ + other@,
{
    let mut both = slice_to_vec(one);
    let mut i: usize = 0;
    while i < other.len()
        invariant
            i <= other@.len(),
            both@ == one@ + other@.subrange(0, i as int),
        decreases other@.len() - i,
    {
        both.push(other[i]);
        i = i + 1;
    }
    assert(other@.subrange(0, other@.len() as int) =~= other@);
    both
}

/// The text of a page, as a fetch yields it: never more than `MAX_SIZE` bytes.
#[derive(Debug, PartialEq, Eq)]
pub struct PageText {
    text: String,
}

impl View for PageText {
    type V = Seq<char>;

    closed spec fn view(&self) -> Seq<char> {
        self.text@
    }
}

impl PageText {
    /// The bytes of the text.
    pub open spec fn bytes(&self) -> Seq<u8> {
        encode_utf8(self@)
    }

    #[verifier::type_invariant]
    spec fn within_budget(&self) -> bool {
        encode_utf8(self.text@).len() <= MAX_SIZE
    }

    /// `text` as the text of a page, where it is within the budget.
    pub fn new(text: String) -> (page: Option<PageText>)
        ensures
            page is Some <==> encode_utf8(text@).len() <= MAX_SIZE,
            page matches Some(kept) ==> kept@ == text@,
    {
        if text.as_str().as_bytes().len() <= MAX_SIZE {
            Some(PageText { text })
        } else {
            None
        }
    }

    /// The text.
    pub fn as_str(&self) -> (text: &str)
        ensures
            text@ == self@,
            text.spec_bytes() == self.bytes(),
            self.bytes().len() <= MAX_SIZE,
    {
        proof {
            use_type_invariant(self);
        }
        self.text.as_str()
    }

    /// The text, handed out.
    pub fn into_string(self) -> (text: String)
        ensures
            text@ == self@,
            self.bytes().len() <= MAX_SIZE,
    {
        proof {
            use_type_invariant(&self);
        }
        self.text
    }
}

/// Text under construction from the chunks of one response body.
pub struct TextAccumulator {
    text: String,
    pending: Vec<u8>,
    finished: bool,
}

impl TextAccumulator {
    /// The bytes of the text held so far.
    pub closed spec fn bytes(&self) -> Seq<u8> {
        encode_utf8(self.text@)
    }

    /// The bytes held back: nothing, or the unfinished start of a character.
    pub closed spec fn pending(&self) -> Seq<u8> {
        self.pending@
    }

    /// Whether the text is complete, so that further chunks are ignored.
    pub closed spec fn is_finished(&self) -> bool {
        self.finished
    }

    /// The budget is respected, by the text and the bytes held back together; what is
    /// held back is the unfinished start of a character; and nothing is held back
    /// once the text is complete.
    #[verifier::type_invariant]
    spec fn within_budget(&self) -> bool {
        &&& encode_utf8(self.text@).len() + self.pending@.len() <= MAX_SIZE
        &&& self.pending@.len() == 0 || unfinished(self.pending@)
        &&& self.finished ==> self.pending@.len() == 0
    }

    /// An accumulator that holds nothing yet.
    pub fn new() -> (empty: Self)
        ensures
            empty.bytes() == Seq::<u8>::empty(),
            empty.pending() == Seq::<u8>::empty(),
            !empty.is_finished(),
    {
        TextAccumulator { text: String::new(), pending: Vec::new(), finished: false }
    }

    /// Whether the text is complete.
    pub fn finished(&self) -> (done: bool)
        ensures
            done == self.is_finished(),
    {
        self.finished
    }

    /// Appends `piece` and holds `pending` back. The text is taken out while it
    /// grows, so that the accumulator respects its budget at every step.
    fn keep(&mut self, piece: &str, pending: Vec<u8>, finished: bool)
        requires
            old(self).bytes().len() + piece.spec_bytes().len() + pending@.len() <= MAX_SIZE,
            pending@.len() == 0 || unfinished(pending@),
            finished ==> pending@.len() == 0,
            !old(self).is_finished(),
        ensures
            final(self).bytes() == old(self).bytes() + piece.spec_bytes(),
            final(self).pending() == pending@,
            final(self).is_finished() == finished,
            valid_utf8(final(self).bytes()),
    {
        proof {
            use_type_invariant(&*self);
        }
        let mut text = String::new();
        core::mem::swap(&mut self.text, &mut text);
        self.pending = pending;
        proof {
            lemma_encode_utf8_concat(text@, piece@);
            encode_utf8_valid_utf8(text@ + piece@);
        }
        text.append(piece);
        self.text = text;
        self.finished = finished;
    }

    /// Takes `data`, which is what was held back and the next chunk, joined.
    fn take_in(&mut self, data: &[u8], Ghost(chunk): Ghost<Seq<u8>>) -> (r: Result<
        Progress,
        FetchError,
    >)
        requires
            !old(self).is_finished(),
            data@ == old(self).pending() + chunk,
        ensures
            final(self).bytes().len() <= MAX_SIZE,
            valid_utf8(final(self).bytes()),
            match absorb(old(self).bytes(), old(self).pending(), chunk) {
                Absorbed::More(text, rest) => r == Ok::<Progress, FetchError>(Progress::More)
                    && final(self).bytes() == text && final(self).pending() == rest
                    && !final(self).is_finished(),
                Absorbed::Full(text) => r == Ok::<Progress, FetchError>(Progress::Done)
                    && final(self).bytes() == text && final(self).pending() == Seq::<u8>::empty()
                    && final(self).is_finished(),
                Absorbed::Invalid(message) => r matches Err(FetchError::Encoding(text)) && text@
                    == message && final(self).bytes() == old(self).bytes()
                    && final(self).pending() == old(self).pending()
                    && !final(self).is_finished(),
            },
    {
        proof {
            use_type_invariant(&*self);
            encode_utf8_valid_utf8(self.text@);
            lemma_valid_prefix_len(data@);
            assert(data@.subrange(0, data@.len() as int) =~= data@);
        }
        let room: usize = MAX_SIZE - self.text.as_str().len();
        if data.len() <= room {
            match decode(data) {
                Ok(piece) => {
                    assert(data@.skip(data@.len() as int) =~= Seq::<u8>::empty());
                    self.keep(piece, Vec::new(), false);
                    Ok(Progress::More)
                },
                Err(message) => {
                    let fit = valid_up_to(data);
                    let rest = slice_subrange(data, fit, data.len());
                    if is_unfinished(rest) {
                        let rest = slice_to_vec(rest);
                        match decode(slice_subrange(data, 0, fit)) {
                            Ok(piece) => {
                                self.keep(piece, rest, false);
                            },
                            Err(_) => {
                                // the prefix was measured as well-formed
                                assert(false);
                            },
                        }
                        Ok(Progress::More)
                    } else {
                        Err(FetchError::Encoding(message))
                    }
                },
            }
        } else {
            let head = slice_subrange(data, 0, room);
            proof {
                lemma_valid_prefix_len(head@);
            }
            match decode(head) {
                Ok(piece) => {
                    assert(head@.subrange(0, head@.len() as int) =~= head@);
                    self.keep(piece, Vec::new(), true);
                    Ok(Progress::Done)
                },
                Err(message) => {
                    let fit = valid_up_to(head);
                    if fit > 0 {
                        match decode(slice_subrange(head, 0, fit)) {
                            Ok(piece) => {
                                self.keep(piece, Vec::new(), true);
                            },
                            Err(_) => {
                                // the prefix was measured as well-formed
                                assert(false);
                            },
                        }
                        Ok(Progress::Done)
                    } else if is_unfinished(head) || self.text.as_str().len() > 0 {
                        assert(self.bytes() + head@.subrange(0, 0) =~= self.bytes());
                        self.pending = Vec::new();
                        self.finished = true;
                        Ok(Progress::Done)
                    } else {
                        Err(FetchError::Encoding(message))
                    }
                },
            }
        }
    }

    /// Takes the next chunk of the body.
    ///
    /// The chunk is read behind the bytes held back from the chunk before. While the
    /// budget lasts, all that is well-formed UTF-8 is appended, and a character that
    /// the chunk leaves unfinished is held back for the next one. The chunk with which
    /// the budget is reached is cut to the budget, then back to the end of its last
    /// complete character, and completes the text. Bytes that are no text are refused,
    /// and nothing changes. Once the text is complete, chunks are ignored.
    pub fn push_chunk(&mut self, chunk: &[u8]) -> (r: Result<Progress, FetchError>)
        ensures
            final(self).bytes().len() <= MAX_SIZE,
            valid_utf8(final(self).bytes()),
            old(self).is_finished() ==> r == Ok::<Progress, FetchError>(Progress::Done)
                && final(self).bytes() == old(self).bytes()
                && final(self).pending() == old(self).pending() && final(self).is_finished(),
            !old(self).is_finished() ==> match absorb(
                old(self).bytes(),
                old(self).pending(),
                chunk@,
            ) {
                Absorbed::More(text, rest) => r == Ok::<Progress, FetchError>(Progress::More)
                    && final(self).bytes() == text && final(self).pending() == rest
                    && !final(self).is_finished(),
                Absorbed::Full(text) => r == Ok::<Progress, FetchError>(Progress::Done)
                    && final(self).bytes() == text && final(self).pending() == Seq::<u8>::empty()
                    && final(self).is_finished(),
                Absorbed::Invalid(message) => r matches Err(FetchError::Encoding(text)) && text@
                    == message && final(self).bytes() == old(self).bytes()
                    && final(self).pending() == old(self).pending()
                    && !final(self).is_finished(),
            },
    {
        proof {
            use_type_invariant(&*self);
            encode_utf8_valid_utf8(self.text@);
        }
        if self.finished {
            return Ok(Progress::Done);
        }
        if self.pending.len() == 0 {
            assert(self.pending@ + chunk@ =~= chunk@);
            self.take_in(chunk, Ghost(chunk@))
        } else {
            let data = joined(self.pending.as_slice(), chunk);
            self.take_in(data.as_slice(), Ghost(chunk@))
        }
    }

    /// The text, once the body has ended or the text is complete. A body that ended
    /// inside a character is no text.
    pub fn finish(self) -> (r: Result<PageText, FetchError>)
        ensures
            match settle(self.bytes(), self.pending()) {
                Ok(bytes) => r matches Ok(text) && text.bytes() == bytes && text@ == decode_utf8(
                    bytes,
                ) && bytes.len() <= MAX_SIZE,
                Err(message) => r matches Err(FetchError::Encoding(text)) && text@ == message,
            },
    {
        proof {
            use_type_invariant(&self);
            encode_utf8_decode_utf8(self.text@);
        }
        if self.pending.len() == 0 {
            Ok(PageText { text: self.text })
        } else {
            proof {
                lemma_unfinished_not_valid(self.pending@);
            }
            match decode(self.pending.as_slice()) {
                Ok(_) => {
                    // what is held back is unfinished
                    assert(false);
                    Ok(PageText { text: self.text })
                },
                Err(message) => Err(FetchError::Encoding(message)),
            }
        }
    }

    /// Gives up the body because the request or a read failed in transit: whatever
    /// was held is dropped, and no text comes of it.
    pub fn fail(self, message: String) -> (r: Result<PageText, FetchError>)
        ensures
            r == Err::<PageText, FetchError>(FetchError::Transport(message)),
    {
        Err(FetchError::Transport(message))
    }
}

/// Whatever text the chunks of a body yield is well-formed, and is the body clipped.
proof fn lemma_absorb_all_clips(held: Seq<u8>, pending: Seq<u8>, chunks: Seq<Seq<u8>>)
    requires
        valid_utf8(held),
        valid_prefix_len(pending) == 0,
        held.len() + pending.len() <= MAX_SIZE,
    ensures
        absorb_all(held, pending, chunks) matches Ok(text) ==> valid_utf8(text) && text
            == clipped(held + pending + chunks.flatten()),
    decreases chunks.len(),
{
    let body = held + pending + chunks.flatten();
    if chunks.len() == 0 {
        assert(pending.len() == 0 ==> body =~= held);
    } else {
        let chunk = chunks.first();
        let rest = chunks.drop_first();
        let data = pending + chunk;
        let room = MAX_SIZE - held.len();
        assert(body =~= held + data + rest.flatten());
        if data.len() <= room {
            let fit = valid_prefix_len(data) as int;
            lemma_valid_prefix_len(data);
            lemma_rest_has_no_valid_prefix(data);
            valid_utf8_concat(held, data.subrange(0, fit));
            lemma_absorb_all_clips(held + data.subrange(0, fit), data.skip(fit), rest);
            assert(body =~= (held + data.subrange(0, fit)) + data.skip(fit) + rest.flatten());
        } else {
            let head = data.subrange(0, room);
            let fit = valid_prefix_len(head) as int;
            lemma_valid_prefix_len(head);
            valid_utf8_concat(held, head.subrange(0, fit));
            assert(body.subrange(0, MAX_SIZE as int) =~= held + head);
            lemma_valid_prefix_len_after(held, head);
            assert(body.subrange(0, held.len() + fit) =~= held + head.subrange(0, fit));
        }
    }
}

/// The chunks of a body that is well-formed as a whole yield text, wherever they
/// begin and end.
proof fn lemma_absorb_all_accepts(held: Seq<u8>, pending: Seq<u8>, chunks: Seq<Seq<u8>>)
    requires
        valid_utf8(held),
        valid_prefix_len(pending) == 0,
        held.len() + pending.len() <= MAX_SIZE,
        valid_utf8(held + pending + chunks.flatten()),
    ensures
        absorb_all(held, pending, chunks) is Ok,
    decreases chunks.len(),
{
    let body = held + pending + chunks.flatten();
    if chunks.len() == 0 {
        assert(body =~= held + pending);
        lemma_valid_utf8_tail(held, pending);
        assert(pending.subrange(0, pending.len() as int) =~= pending);
        lemma_valid_prefix_len(pending);
    } else {
        let chunk = chunks.first();
        let rest = chunks.drop_first();
        let data = pending + chunk;
        let room = MAX_SIZE - held.len();
        assert(body =~= held + (data + rest.flatten()));
        lemma_valid_utf8_tail(held, data + rest.flatten());
        if data.len() <= room {
            let fit = valid_prefix_len(data) as int;
            lemma_rest_unfinished(data, rest.flatten());
            lemma_valid_prefix_len(data);
            lemma_rest_has_no_valid_prefix(data);
            valid_utf8_concat(held, data.subrange(0, fit));
            assert(body =~= (held + data.subrange(0, fit)) + data.skip(fit) + rest.flatten());
            lemma_absorb_all_accepts(held + data.subrange(0, fit), data.skip(fit), rest);
        } else {
            let head = data.subrange(0, room);
            assert(data + rest.flatten() =~= head + (data.skip(room) + rest.flatten()));
            lemma_rest_unfinished(head, data.skip(room) + rest.flatten());
            assert(head.skip(0) =~= head);
        }
    }
}

/// Leading bytes must decode. A body that no character begins yields no text, whatever
/// its size and in whatever chunks it arrives.
pub proof fn lemma_leading_bytes_must_decode(chunks: Seq<Seq<u8>>)
    requires
        begins_no_character(chunks.flatten()),
    ensures
        fetched(chunks) is Err,
    decreases chunks.len(),
{
    let body = chunks.flatten();
    let none = Seq::<u8>::empty();
    if chunks.len() > 0 {
        let chunk = chunks.first();
        let rest = chunks.drop_first();
        assert(none + chunk =~= chunk);
        if chunk.len() == 0 {
            assert(body =~= rest.flatten());
            assert(none + chunk.subrange(0, 0) =~= none);
            assert(chunk.skip(0) =~= none);
            lemma_leading_bytes_must_decode(rest);
        } else {
            let head = if chunk.len() <= MAX_SIZE {
                chunk
            } else {
                chunk.subrange(0, MAX_SIZE as int)
            };
            let fit = valid_prefix_len(head) as int;
            lemma_valid_prefix_len(head);
            assert(head =~= body.subrange(0, head.len() as int));
            if fit > 0 {
                assert(head.subrange(0, fit) =~= body.subrange(0, fit));
                lemma_first_scalar_of_prefix(body, 0, fit);
                assert(body.subrange(0, body.len() as int) =~= body);
            }
            assert(head.skip(0) =~= head);
        }
    }
}

/// Truncation is safe. The text that a fetch yields, from a body of whatever size in
/// whatever chunks, is well-formed UTF-8 from end to end, so no character is split at
/// its end; it is no longer than the budget; it is the body clipped, a prefix of the
/// body; and no longer prefix of the body within the budget is well-formed.
pub proof fn lemma_truncation_safety(chunks: Seq<Seq<u8>>)
    ensures
        fetched(chunks) matches Ok(text) ==> {
            &&& valid_utf8(text)
            &&& text.len() <= MAX_SIZE
            &&& text == clipped(chunks.flatten())
            &&& text.is_prefix_of(chunks.flatten())
            &&& forall|k: int|
                text.len() < k <= MAX_SIZE && k <= chunks.flatten().len() ==> !valid_utf8(
                    #[trigger] chunks.flatten().subrange(0, k),
                )
        },
{
    let body = chunks.flatten();
    let none = Seq::<u8>::empty();
    lemma_absorb_all_clips(none, none, chunks);
    assert(none + none + body =~= body);
    if body.len() > MAX_SIZE {
        let head = body.subrange(0, MAX_SIZE as int);
        lemma_valid_prefix_len(head);
        assert forall|k: int| valid_prefix_len(head) < k <= MAX_SIZE implies !valid_utf8(
            #[trigger] body.subrange(0, k),
        ) by {
            assert(head.subrange(0, k) =~= body.subrange(0, k));
        }
    }
}

/// Chunk boundaries make no difference to text. A body that is well-formed UTF-8 as
/// a whole yields itself clipped, in whatever chunks it arrives, be it that they end
/// inside characters.
pub proof fn lemma_chunking_is_immaterial(chunks: Seq<Seq<u8>>)
    requires
        valid_utf8(chunks.flatten()),
    ensures
        fetched(chunks) == Ok::<Seq<u8>, Seq<char>>(clipped(chunks.flatten())),
{
    let none = Seq::<u8>::empty();
    assert(none + none + chunks.flatten() =~= chunks.flatten());
    lemma_absorb_all_accepts(none, none, chunks);
    lemma_absorb_all_clips(none, none, chunks);
}

/// Truncation is correct. A body that fits the budget and is well-formed UTF-8 is
/// kept whole, byte for byte, in whatever chunks it arrives.
pub proof fn lemma_truncation_correctness(chunks: Seq<Seq<u8>>)
    requires
        chunks.flatten().len() <= MAX_SIZE,
        valid_utf8(chunks.flatten()),
    ensures
        fetched(chunks) == Ok::<Seq<u8>, Seq<char>>(chunks.flatten()),
{
    lemma_chunking_is_immaterial(chunks);
}

/// Truncation is tight. Of a body that is well-formed UTF-8 as a whole and larger than
/// the budget, the text kept falls short of the budget by fewer than four bytes: by
/// no more than the part of one character.
pub proof fn lemma_truncation_tightness(chunks: Seq<Seq<u8>>)
    requires
        chunks.flatten().len() > MAX_SIZE,
        valid_utf8(chunks.flatten()),
    ensures
        fetched(chunks) matches Ok(text) && MAX_SIZE - 3 <= text.len() <= MAX_SIZE,
{
    lemma_chunking_is_immaterial(chunks);
    lemma_valid_prefix_len_of_cut(chunks.flatten(), MAX_SIZE as int);
}

/// The text of a body whose chunks are all at hand: what an accumulator holds after
/// taking them in order.
pub fn collect_text(chunks: &[Vec<u8>]) -> (r: Result<PageText, FetchError>)
    ensures
        match fetched(chunk_bytes(chunks@)) {
            Ok(bytes) => r matches Ok(text) && text.bytes() == bytes && text@ == decode_utf8(
                bytes,
            ) && bytes.len() <= MAX_SIZE,
            Err(message) => r matches Err(FetchError::Encoding(text)) && text@ == message,
        },
        r matches Ok(text) ==> text.bytes() == clipped(chunk_bytes(chunks@).flatten()),
        valid_utf8(chunk_bytes(chunks@).flatten()) ==> r is Ok,
{
    let ghost all = chunk_bytes(chunks@);
    let mut held = TextAccumulator::new();
    let mut i: usize = 0;
    proof {
        assert(all.skip(0) =~= all);
        lemma_truncation_safety(all);
        if valid_utf8(all.flatten()) {
            lemma_chunking_is_immaterial(all);
        }
    }
    while i < chunks.len()
        invariant
            i <= chunks.len(),
            all == chunk_bytes(chunks@),
            !held.is_finished(),
            absorb_all(held.bytes(), held.pending(), all.skip(i as int)) == fetched(all),
            fetched(all) matches Ok(bytes) ==> bytes == clipped(all.flatten()),
            valid_utf8(all.flatten()) ==> fetched(all) is Ok,
        decreases chunks.len() - i,
    {
        proof {
            assert(all.skip(i as int).first() == chunks@[i as int]@);
            assert(all.skip(i as int).drop_first() =~= all.skip(i + 1));
        }
        match held.push_chunk(chunks[i].as_slice()) {
            Ok(Progress::More) => {},
            Ok(Progress::Done) => {
                return held.finish();
            },
            Err(e) => {
                return Err(e);
            },
        }
        i = i + 1;
    }
    held.finish()
}

} // verus!
