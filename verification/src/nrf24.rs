//! The nRF24L01 2.4 GHz radio link: its addresses and pipes, and turning a
//! received payload into text.

use vstd::prelude::*;

verus! {

/// Command word exchanged over the radio link.
#[derive(Debug)]
pub struct NRF24L01Cmd {
    pub cmd: i32,
}

/// Transmit address of the link (`b"fnord"`).
pub const NRF24L01_TX_ADDR: [u8; 5] = [0x66, 0x6e, 0x6f, 0x72, 0x64];
/// Receive address of the link (`b"fnord"`).
pub const NRF24L01_RX_ADDR: [u8; 5] = [0x66, 0x6e, 0x6f, 0x72, 0x64];
/// Receive pipes 0 to 5.
pub const NRF24L01_RX_ADDR_P0: usize = 0x00;
pub const NRF24L01_RX_ADDR_P1: usize = 0x01;
pub const NRF24L01_RX_ADDR_P2: usize = 0x02;
pub const NRF24L01_RX_ADDR_P3: usize = 0x03;
pub const NRF24L01_RX_ADDR_P4: usize = 0x04;
pub const NRF24L01_RX_ADDR_P5: usize = 0x05;

/// Capacity in bytes of the text made from one payload.
pub const PAYLOAD_TEXT_CAPACITY: usize = 32;

#[verifier::external_type_specification]
#[verifier::external_body]
pub struct ExHeaplessString<const N: usize>(heapless::String<N>);

/// The characters that a `heapless::String<32>` holds.
pub uninterp spec fn string_chars(s: heapless::String<32>) -> Seq<char>;

/// Number of bytes of the UTF-8 encoding of `c` (what `char::len_utf8`
/// documents).
pub open spec fn char_utf8_len(c: char) -> int {
    if (c as int) < 0x80 {
        1
    } else if (c as int) < 0x800 {
        2
    } else if (c as int) < 0x10000 {
        3
    } else {
        4
    }
}

/// Number of bytes of the UTF-8 encoding of `cs`.
pub open spec fn utf8_len(cs: Seq<char>) -> int
    decreases cs.len(),
{
    if cs.len() == 0 {
        0
    } else {
        utf8_len(cs.drop_last()) + char_utf8_len(cs.last())
    }
}

/// `heapless::String::new`: an empty string.
#[verifier::external_body]
fn string_new() -> (s: heapless::String<32>)
    ensures
        string_chars(s) == Seq::<char>::empty(),
{
    heapless::String::new()
}

/// `heapless::String::push`: appends `c` when its UTF-8 bytes still fit in
/// the 32-byte buffer and answers `Ok`; otherwise leaves the string as it
/// was and answers `Err`.
#[verifier::external_body]
fn string_push(s: &mut heapless::String<32>, c: char) -> (r: Result<(), ()>)
    ensures
        utf8_len(string_chars(*old(s))) + char_utf8_len(c) <= 32 ==> r is Ok && string_chars(
            *final(s),
        ) == string_chars(*old(s)).push(c),
        utf8_len(string_chars(*old(s))) + char_utf8_len(c) > 32 ==> r is Err && string_chars(
            *final(s),
        ) == string_chars(*old(s)),
{
    s.push(c)
}

/// The characters of a payload, one per byte (each byte read as the code
/// point of the same value).
pub open spec fn payload_chars(payload: Seq<u8>) -> Seq<char> {
    payload.map_values(|b: u8| b as char)
}

/// The nRF24L01 radio, holding its driver `D` in the mode it is in.
pub struct Nrf24L01<D> {
    pub nrf24: D,
}

impl<D> Nrf24L01<D> {
    /// Turns a received payload into text, one character per byte. The text
    /// holds at most 32 bytes, so bytes of 0x80 and above, which take two
    /// bytes in UTF-8, make it fill up sooner.
    pub fn payload_string(payload: &[u8]) -> (s: heapless::String<32>)
        requires
            utf8_len(payload_chars(payload@)) <= 32,
        ensures
            string_chars(s) == payload_chars(payload@),
    {
        let mut s = string_new();
        let mut i: usize = 0;
        while i < payload.len()
            invariant
                i <= payload@.len(),
                utf8_len(payload_chars(payload@)) <= 32,
                string_chars(s) == payload_chars(payload@.take(i as int)),
            decreases payload@.len() - i,
        {
            let byte = payload[i];
            proof {
                lemma_utf8_len_prefix(payload_chars(payload@), i as int + 1);
                assert(payload_chars(payload@).take(i + 1) =~= payload_chars(payload@.take(i + 1)));
                assert(payload_chars(payload@.take(i + 1)).drop_last() =~= payload_chars(
                    payload@.take(i as int),
                ));
            }
            let r = string_push(&mut s, byte as char);
            assert(r is Ok);
            proof {
                assert(payload_chars(payload@.take(i as int)).push(byte as char) =~= payload_chars(
                    payload@.take(i + 1),
                ));
            }
            i = i + 1;
        }
        assert(payload@.take(payload@.len() as int) =~= payload@);
        s
    }
}

/// Turns a received payload into text when the text fits in 32 bytes;
/// none when it does not.
pub fn try_payload_string(payload: &[u8]) -> (s: Option<heapless::String<32>>)
    ensures
        s is Some <==> utf8_len(payload_chars(payload@)) <= 32,
        s matches Some(t) ==> string_chars(t) == payload_chars(payload@),
{
    let mut s = string_new();
    let mut i: usize = 0;
    while i < payload.len()
        invariant
            i <= payload@.len(),
            string_chars(s) == payload_chars(payload@.take(i as int)),
            utf8_len(payload_chars(payload@.take(i as int))) <= 32,
        decreases payload@.len() - i,
    {
        let byte = payload[i];
        proof {
            assert(payload_chars(payload@.take(i + 1)).drop_last() =~= payload_chars(
                payload@.take(i as int),
            ));
            assert(payload_chars(payload@.take(i + 1)).last() == byte as char);
        }
        let r = string_push(&mut s, byte as char);
        if r.is_err() {
            proof {
                lemma_utf8_len_prefix(payload_chars(payload@), i as int + 1);
                assert(payload_chars(payload@).take(i + 1) =~= payload_chars(payload@.take(i + 1)));
            }
            return None;
        }
        proof {
            assert(payload_chars(payload@.take(i as int)).push(byte as char) =~= payload_chars(
                payload@.take(i + 1),
            ));
        }
        i = i + 1;
    }
    assert(payload@.take(payload@.len() as int) =~= payload@);
    Some(s)
}

proof fn lemma_utf8_len_prefix(cs: Seq<char>, k: int)
    requires
        0 <= k <= cs.len(),
    ensures
        utf8_len(cs.take(k)) <= utf8_len(cs),
    decreases cs.len(),
{
    if k < cs.len() {
        assert(cs.drop_last().take(k) =~= cs.take(k));
        lemma_utf8_len_prefix(cs.drop_last(), k);
    } else {
        assert(cs.take(k) =~= cs);
    }
}

/// Law: every character of the text gives back the byte of the payload it
/// came from.
pub proof fn lemma_payload_string_round_trip(payload: Seq<u8>)
    ensures
        payload_chars(payload).len() == payload.len(),
        forall|i: int| 0 <= i < payload.len() ==> #[trigger] payload_chars(payload)[i] as u8 == payload[i],
{
}

} // verus!
