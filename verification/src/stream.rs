//! Text that arrives in chunks of bytes.
use vstd::prelude::*;
use vstd::slice::slice_subrange;
use vstd::utf8::{decode_utf8, decode_utf8_encode_utf8, encode_utf8, encode_utf8_decode_utf8};
use vstd::utf8::{encode_utf8_valid_utf8, length_of_first_scalar, pop_first_scalar};
use vstd::utf8::{valid_first_scalar, valid_utf8};

verus! {

/// `heapless::Vec`, a list of at most `N` items.
#[verifier::external_type_specification]
#[verifier::external_body]
#[verifier::reject_recursive_types(T)]
pub struct ExHeaplessVec<T, const N: usize>(heapless::Vec<T, N>);

/// The bytes that a list of at most four bytes holds.
pub uninterp spec fn carried(v: heapless::Vec<u8, 4>) -> Seq<u8>;

/// `heapless::Vec::new`: a list without bytes.
#[verifier::external_body]
fn carry_new() -> (r: heapless::Vec<u8, 4>)
    ensures
        carried(r) == Seq::<u8>::empty(),
{
    heapless::Vec::new()
}

/// `heapless::Vec::extend_from_slice`: appends the bytes where there is room for all of them, and
/// otherwise leaves the list as it was and says so.
#[verifier::external_body]
fn carry_extend(v: &mut heapless::Vec<u8, 4>, bytes: &[u8]) -> (r: Result<(), ()>)
    ensures
        r is Ok <==> carried(*old(v)).len() + bytes@.len() <= 4,
        carried(*final(v)) == (if r is Ok {
            carried(*old(v)) + bytes@
        } else {
            carried(*old(v))
        }),
{
    v.extend_from_slice(bytes)
}

/// `heapless::Vec::as_slice`: the bytes of the list.
#[verifier::external_body]
fn carry_slice(v: &heapless::Vec<u8, 4>) -> (r: &[u8])
    ensures
        r@ == carried(*v),
{
    v.as_slice()
}

/// `std::str::from_utf8`: the text that the bytes encode, or else the greatest place such that the
/// bytes before it encode a text.
#[verifier::external_body]
fn utf8_text(bytes: &[u8]) -> (r: Result<String, usize>)
    ensures
        match r {
            Ok(t) => valid_utf8(bytes@) && t@ == decode_utf8(bytes@),
            Err(n) => !valid_utf8(bytes@) && n <= bytes@.len() && valid_utf8(bytes@.take(n as int))
                && forall|m: int|
                n < m <= bytes@.len() ==> !valid_utf8(#[trigger] bytes@.take(m)),
        },
{
    std::str::from_utf8(bytes).map(|t| t.to_owned()).map_err(|e| e.valid_up_to())
}

/// How many of the bytes, from the first one on, encode whole characters.
pub open spec fn valid_len(bytes: Seq<u8>) -> nat
    decreases bytes.len(),
{
    if bytes.len() == 0 || !valid_first_scalar(bytes) {
        0
    } else {
        (length_of_first_scalar(bytes) + valid_len(pop_first_scalar(bytes))) as nat
    }
}

/// The bytes before `valid_len` encode a text, and those behind it begin with no whole character.
pub proof fn lemma_valid_len(bytes: Seq<u8>)
    ensures
        valid_len(bytes) <= bytes.len(),
        valid_utf8(bytes.take(valid_len(bytes) as int)),
        valid_len(bytes.skip(valid_len(bytes) as int)) == 0,
    decreases bytes.len(),
{
    let n = valid_len(bytes) as int;
    if bytes.len() == 0 || !valid_first_scalar(bytes) {
        assert(bytes.skip(0) =~= bytes);
    } else {
        let l = length_of_first_scalar(bytes);
        let rest = pop_first_scalar(bytes);
        lemma_valid_len(rest);
        let k = valid_len(rest) as int;
        assert(bytes.skip(n) =~= rest.skip(k));
        assert(pop_first_scalar(bytes.take(n)) =~= rest.take(k));
        assert(valid_first_scalar(bytes.take(n)));
    }
}

/// No longer beginning of the bytes encodes a text.
pub proof fn lemma_valid_len_greatest(bytes: Seq<u8>, m: int)
    requires
        0 <= m <= bytes.len(),
        valid_utf8(bytes.take(m)),
    ensures
        m <= valid_len(bytes),
    decreases bytes.len(),
{
    if m > 0 {
        let head = bytes.take(m);
        assert(valid_first_scalar(head));
        let l = length_of_first_scalar(head);
        assert(valid_first_scalar(bytes));
        assert(length_of_first_scalar(bytes) == l);
        assert(pop_first_scalar(head) =~= pop_first_scalar(bytes).take(m - l));
        lemma_valid_len_greatest(pop_first_scalar(bytes), m - l);
    }
}

/// Behind whole characters, counting starts anew.
pub proof fn lemma_valid_len_behind(a: Seq<u8>, b: Seq<u8>)
    requires
        valid_utf8(a),
    ensures
        valid_len(a + b) == a.len() + valid_len(b),
    decreases a.len(),
{
    if a.len() == 0 {
        assert(a + b =~= b);
    } else {
        let l = length_of_first_scalar(a);
        assert(valid_first_scalar(a + b));
        assert(length_of_first_scalar(a + b) == l);
        assert(pop_first_scalar(a + b) =~= pop_first_scalar(a) + b);
        lemma_valid_len_behind(pop_first_scalar(a), b);
    }
}

/// Why a chunk was not taken: it holds no character, or more is left of it than one character can
/// need.
#[derive(Debug, Clone, Copy, PartialEq, Eq, Structural)]
pub enum DecodeError {
    NotUtf8,
    TooMuchLeft,
}

/// The text of the chunks so far, and the bytes of a character that has not arrived whole.
pub struct Decoder {
    pub text: String,
    pub carry: Option<heapless::Vec<u8, 4>>,
}

/// What was decoded so far.
#[verifier::ext_equal]
pub struct DecoderView {
    pub text: Seq<char>,
    pub carry: Seq<u8>,
}

impl View for Decoder {
    type V = DecoderView;

    open spec fn view(&self) -> DecoderView {
        DecoderView {
            text: self.text@,
            carry: match self.carry {
                Some(c) => carried(c),
                None => Seq::empty(),
            },
        }
    }
}

impl DecoderView {
    /// Nothing has arrived.
    pub open spec fn start() -> DecoderView {
        DecoderView { text: Seq::empty(), carry: Seq::empty() }
    }

    /// The bytes that have arrived.
    pub open spec fn bytes(self) -> Seq<u8> {
        encode_utf8(self.text) + self.carry
    }

    /// What is kept back begins with no whole character.
    pub open spec fn wf(self) -> bool {
        valid_len(self.carry) == 0
    }

    /// What was decoded once one more chunk has arrived.
    pub open spec fn fed(self, chunk: Seq<u8>) -> Result<DecoderView, DecodeError> {
        let buffer = self.carry + chunk;
        let n = valid_len(buffer) as int;
        if n == 0 {
            Err(DecodeError::NotUtf8)
        } else if buffer.len() - n > 4 {
            Err(DecodeError::TooMuchLeft)
        } else {
            Ok(
                DecoderView {
                    text: self.text + decode_utf8(buffer.take(n)),
                    carry: buffer.skip(n),
                },
            )
        }
    }

    /// What was decoded once a row of chunks has arrived.
    pub open spec fn fed_all(self, chunks: Seq<Seq<u8>>) -> Result<DecoderView, DecodeError>
        decreases chunks.len(),
    {
        if chunks.len() == 0 {
            Ok(self)
        } else {
            match self.fed_all(chunks.drop_last()) {
                Ok(d) => d.fed(chunks.last()),
                Err(e) => Err(e),
            }
        }
    }
}

/// The bytes of a row of chunks.
pub open spec fn all_bytes(chunks: Seq<Seq<u8>>) -> Seq<u8>
    decreases chunks.len(),
{
    if chunks.len() == 0 {
        Seq::empty()
    } else {
        all_bytes(chunks.drop_last()) + chunks.last()
    }
}

/// Decoding loses no byte: what was decoded and what is kept back are together what has arrived.
pub proof fn law_no_byte_is_lost(d: DecoderView, chunk: Seq<u8>)
    ensures
        d.fed(chunk) matches Ok(e) ==> e.wf() && e.bytes() == d.bytes() + chunk,
{
    if let Ok(e) = d.fed(chunk) {
        let buffer = d.carry + chunk;
        let n = valid_len(buffer) as int;
        lemma_valid_len(buffer);
        let head = buffer.take(n);
        decode_utf8_encode_utf8(head);
        lemma_encode_concat(d.text, decode_utf8(head));
        assert(head + buffer.skip(n) =~= buffer);
        assert(e.bytes() =~= encode_utf8(d.text) + buffer);
        assert(d.bytes() + chunk =~= encode_utf8(d.text) + buffer);
    }
}

/// Texts that follow each other are encoded one after the other.
pub proof fn lemma_encode_concat(a: Seq<char>, b: Seq<char>)
    ensures
        encode_utf8(a + b) == encode_utf8(a) + encode_utf8(b),
    decreases a.len(),
{
    if a.len() == 0 {
        assert(a + b =~= b);
        assert(encode_utf8(a) + encode_utf8(b) =~= encode_utf8(b));
    } else {
        lemma_encode_concat(a.drop_first(), b);
        assert((a + b).drop_first() =~= a.drop_first() + b);
        assert(encode_utf8(a + b) =~= encode_utf8(a) + encode_utf8(b));
    }
}

/// However a stream is cut into chunks, if every chunk is taken then the text is what the longest
/// beginning of the stream that encodes a text encodes, and the rest is kept back.
pub proof fn law_chunks_do_not_matter(chunks: Seq<Seq<u8>>)
    ensures
        DecoderView::start().fed_all(chunks) matches Ok(d) ==> {
            let all = all_bytes(chunks);
            let n = valid_len(all) as int;
            d.text == decode_utf8(all.take(n)) && d.carry == all.skip(n)
        },
{
    if let Ok(d) = DecoderView::start().fed_all(chunks) {
        lemma_fed_all(chunks);
        let all = all_bytes(chunks);
        let a = encode_utf8(d.text);
        encode_utf8_valid_utf8(d.text);
        encode_utf8_decode_utf8(d.text);
        lemma_valid_len_behind(a, d.carry);
        assert(all == a + d.carry);
        assert(all.take(a.len() as int) =~= a);
        assert(all.skip(a.len() as int) =~= d.carry);
    }
}

/// After a row of chunks, no byte is lost and nothing whole is kept back.
proof fn lemma_fed_all(chunks: Seq<Seq<u8>>)
    ensures
        DecoderView::start().fed_all(chunks) matches Ok(d) ==> d.wf() && d.bytes() == all_bytes(
            chunks,
        ),
    decreases chunks.len(),
{
    if chunks.len() == 0 {
        assert(DecoderView::start().bytes() =~= Seq::<u8>::empty());
    } else {
        lemma_fed_all(chunks.drop_last());
        if let Ok(d) = DecoderView::start().fed_all(chunks.drop_last()) {
            law_no_byte_is_lost(d, chunks.last());
        }
    }
}

impl Decoder {
    /// A decoder that nothing has arrived at.
    pub fn new() -> (r: Decoder)
        ensures
            r@ == DecoderView::start(),
    {
        Decoder { text: String::new(), carry: None }
    }

    /// Takes one more chunk.
    pub fn feed(&mut self, chunk: &[u8]) -> (r: Result<(), DecodeError>)
        requires
            chunk@.len() > 0,
        ensures
            match old(self)@.fed(chunk@) {
                Ok(d) => r is Ok && final(self)@ == d,
                Err(e) => r == Err::<(), _>(e) && final(self)@ == old(self)@,
            },
    {
        let mut buffer: Vec<u8> = Vec::new();
        if let Some(c) = &self.carry {
            buffer.extend_from_slice(carry_slice(c));
        }
        buffer.extend_from_slice(chunk);
        let ghost b = self@.carry + chunk@;
        assert(buffer@ =~= b);
        let len: usize = buffer.len();
        let n: usize = match utf8_text(buffer.as_slice()) {
            Ok(_) => len,
            Err(n) => n,
        };
        proof {
            lemma_valid_len(b);
            assert(b.take(len as int) =~= b);
            assert(valid_utf8(b.take(n as int)));
            lemma_valid_len_greatest(b, n as int);
            assert(n == valid_len(b));
        }
        if n == 0 {
            return Err(DecodeError::NotUtf8);
        }
        let head = slice_subrange(buffer.as_slice(), 0, n);
        let rest = slice_subrange(buffer.as_slice(), n, len);
        assert(head@ =~= b.take(n as int));
        assert(rest@ =~= b.skip(n as int));
        let mut carry = carry_new();
        if carry_extend(&mut carry, rest).is_err() {
            return Err(DecodeError::TooMuchLeft);
        }
        assert(carried(carry) =~= rest@);
        match utf8_text(head) {
            Ok(text) => {
                self.text.append(text.as_str());
            },
            Err(_) => {},
        }
        self.carry = if rest.len() > 0 {
            Some(carry)
        } else {
            None
        };
        proof {
            assert(self@.carry =~= b.skip(n as int));
        }
        Ok(())
    }

    /// The text of the chunks; a character that has not arrived whole is dropped.
    pub fn finish(self) -> (r: String)
        ensures
            r@ == self@.text,
    {
        self.text
    }
}

/// A chunk is taken exactly where, with what was kept back before, it begins with a whole character
/// and no more than four bytes are left behind the last one. All whole characters are decoded then,
/// and the rest is kept back.
pub proof fn law_when_a_chunk_is_taken(d: DecoderView, chunk: Seq<u8>, n: int)
    requires
        0 <= n <= (d.carry + chunk).len(),
        valid_utf8((d.carry + chunk).take(n)),
        forall|m: int|
            n < m <= (d.carry + chunk).len() ==> !valid_utf8(#[trigger] (d.carry + chunk).take(m)),
    ensures
        ({
            let buffer = d.carry + chunk;
            d.fed(chunk) == if n == 0 {
                Err(DecodeError::NotUtf8)
            } else if buffer.len() > n + 4 {
                Err(DecodeError::TooMuchLeft)
            } else {
                Ok(
                    DecoderView {
                        text: d.text + decode_utf8(buffer.take(n)),
                        carry: buffer.skip(n),
                    },
                )
            }
        }),
        DecoderView::start().text.len() == 0 && DecoderView::start().carry.len() == 0,
{
    let buffer = d.carry + chunk;
    lemma_valid_len(buffer);
    lemma_valid_len_greatest(buffer, n);
    assert(valid_len(buffer) == n);
}

} // verus!
