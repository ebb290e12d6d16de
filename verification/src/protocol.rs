//! The device's binary command framing: a monochrome bitmap becomes one
//! header packet followed by fixed-size payload chunks and a stop command.
//!
//! The bitmap is first written as an upper-case hex string, two digits per
//! packed byte, row-major.  The header carries a length field derived from
//! that string (`floor(len / 96) + 3`, rendered in hex and split into a
//! front/end nibble pair), padded with `'0'` to 32 hex characters, and the
//! first 224 hex characters of the bitmap.  The rest of the string is cut
//! into chunks of 256 hex characters, the last chunk right-padded with
//! `'0'`.  Every packet is decoded from hex to raw bytes before
//! transmission.  The length arithmetic is a firmware contract: it is kept
//! exactly as the device expects it, oddities included.

use vstd::prelude::*;
use crate::dither::MonochromeBitmap;
use crate::hex::{
    decode_hex,
    decode_spec,
    encode_hex,
    encode_spec,
    hex_digit_exec,
    hex_digit_of,
    is_hex_digit,
    is_upper_hex_digit,
    lemma_decode_encode,
};
use crate::instruction::{stop_print_jobs, stop_print_jobs_spec};

verus! {

/// The fixed hex preamble of the header packet.
pub open spec fn preamble_spec() -> Seq<u8> {
    seq![49u8, 68u8, 55u8, 54u8, 51u8, 48u8, 48u8, 48u8, 51u8, 48u8, 48u8, 48u8]
}

/// The header's row-count-derived length value for a bitmap hex string of
/// the given length.
pub open spec fn row_units_spec(hexlen: int) -> int {
    hexlen / 96 + 3
}

/// Upper-case hexadecimal rendering of a number, no leading zeros.
pub open spec fn uhex_spec(n: nat) -> Seq<u8>
    decreases n,
{
    if n < 16 {
        seq![hex_digit_of(n as int)]
    } else {
        uhex_spec(n / 16) + seq![hex_digit_of((n % 16) as int)]
    }
}

/// The "front" part of the split length field: the rendered value with its
/// first digit removed when it runs past two digits.
pub open spec fn front_spec(n: nat) -> Seq<u8> {
    let s = uhex_spec(n);
    if s.len() > 2 {
        s.drop_first()
    } else {
        s
    }
}

/// The "end" part of the split length field: a zero followed by the removed
/// first digit, or `"00"` when nothing was removed.
pub open spec fn end_spec(n: nat) -> Seq<u8> {
    let s = uhex_spec(n);
    if s.len() > 2 {
        seq![48u8, s[0]]
    } else {
        seq![48u8, 48u8]
    }
}

/// A hex string padded on the right with `'0'` up to a width; longer strings
/// stay as they are.
pub open spec fn pad_right_spec(s: Seq<u8>, w: int) -> Seq<u8> {
    if s.len() >= w {
        s
    } else {
        s + Seq::new((w - s.len()) as nat, |i: int| 48u8)
    }
}

/// The header packet's hex text for a bitmap hex string: preamble, front and
/// end of the length field, zero-padded to 32 characters, then the string's
/// first 224 characters.
pub open spec fn header_hex_spec(s: Seq<u8>) -> Seq<u8> {
    let n = row_units_spec(s.len() as int) as nat;
    pad_right_spec(preamble_spec() + front_spec(n) + end_spec(n), 32) + s.subrange(0, 224)
}

/// How many payload chunks a bitmap hex string of the given length needs:
/// everything after the first 224 characters, 256 characters at a time,
/// the last chunk padded.
pub open spec fn chunk_count_spec(len: int) -> int {
    (len - 224 + 255) / 256
}

/// The hex text of payload chunk `i`: 256 characters starting at offset
/// `224 + 256 i`, right-padded with `'0'` past the end of the string.
pub open spec fn chunk_hex_spec(s: Seq<u8>, i: int) -> Seq<u8> {
    let from = 224 + 256 * i;
    let to = if from + 256 <= s.len() {
        from + 256
    } else {
        s.len() as int
    };
    pad_right_spec(s.subrange(from, to), 256)
}

/// The complete ordered packet sequence for a bitmap hex string: header,
/// payload chunks in ascending offset order, stop command.
pub open spec fn print_job_spec(s: Seq<u8>) -> Seq<Seq<u8>> {
    Seq::new(
        (2 + chunk_count_spec(s.len() as int)) as nat,
        |i: int|
            if i == 0 {
                decode_spec(header_hex_spec(s))
            } else if i <= chunk_count_spec(s.len() as int) {
                decode_spec(chunk_hex_spec(s, i - 1))
            } else {
                stop_print_jobs_spec()
            },
    )
}

/// View of a packet vector as a sequence of byte sequences.
pub open spec fn packet_views(v: Seq<Vec<u8>>) -> Seq<Seq<u8>> {
    v.map_values(|p: Vec<u8>| p@)
}

/// The ordered command packets of one complete print: header, payload
/// chunks, stop.  Created fresh per job and transmitted in order, packet by
/// packet.
pub struct PrintJob {
    /// The packets, each one acknowledged wireless write.
    pub packets: Vec<Vec<u8>>,
}

/// `16^k`.
pub open spec fn pow16(k: nat) -> nat
    decreases k,
{
    if k == 0 {
        1
    } else {
        16 * pow16((k - 1) as nat)
    }
}

proof fn lemma_uhex_len(n: nat, k: nat)
    requires
        k >= 1,
        n < pow16(k),
    ensures
        1 <= uhex_spec(n).len() <= k,
    decreases k,
{
    if n < 16 {
    } else {
        assert(pow16(k) == 16 * pow16((k - 1) as nat));
        if k == 1 {
            assert(pow16(1nat) == 16);
        }
        assert(k >= 2);
        assert(n / 16 < pow16((k - 1) as nat)) by (nonlinear_arith)
            requires
                n < 16 * pow16((k - 1) as nat),
                n >= 16,
        ;
        lemma_uhex_len(n / 16, (k - 1) as nat);
    }
}

/// Rendered numbers are made of upper-case hex digits.
proof fn lemma_uhex_digits(n: nat)
    ensures
        forall|i: int|
            0 <= i < uhex_spec(n).len() ==> is_upper_hex_digit(#[trigger] uhex_spec(n)[i]),
    decreases n,
{
    let s = uhex_spec(n);
    if n < 16 {
        assert(is_upper_hex_digit(hex_digit_of(n as int)));
        assert forall|i: int| 0 <= i < s.len() implies is_upper_hex_digit(#[trigger] s[i]) by {
            assert(s[0] == hex_digit_of(n as int));
        }
    } else {
        lemma_uhex_digits(n / 16);
        assert(is_upper_hex_digit(hex_digit_of((n % 16) as int)));
        let a = uhex_spec(n / 16);
        assert forall|i: int| 0 <= i < s.len() implies is_upper_hex_digit(#[trigger] s[i]) by {
            if i < a.len() {
                assert(s[i] == a[i]);
            } else {
                assert(s[i] == hex_digit_of((n % 16) as int));
            }
        }
    }
}

proof fn lemma_preamble_digits()
    ensures
        preamble_spec().len() == 12,
        forall|i: int| 0 <= i < 12 ==> is_upper_hex_digit(#[trigger] preamble_spec()[i]),
{
    assert forall|i: int| 0 <= i < 12 implies is_upper_hex_digit(#[trigger] preamble_spec()[i]) by {
        if i == 0 {
            assert(preamble_spec()[0] == 49u8);
        } else if i == 1 {
            assert(preamble_spec()[1] == 68u8);
        } else if i == 2 {
            assert(preamble_spec()[2] == 55u8);
        } else if i == 3 {
            assert(preamble_spec()[3] == 54u8);
        } else if i == 4 {
            assert(preamble_spec()[4] == 51u8);
        } else if i == 5 {
            assert(preamble_spec()[5] == 48u8);
        } else if i == 6 {
            assert(preamble_spec()[6] == 48u8);
        } else if i == 7 {
            assert(preamble_spec()[7] == 48u8);
        } else if i == 8 {
            assert(preamble_spec()[8] == 51u8);
        } else if i == 9 {
            assert(preamble_spec()[9] == 48u8);
        } else if i == 10 {
            assert(preamble_spec()[10] == 48u8);
        } else {
            assert(preamble_spec()[11] == 48u8);
        }
    }
}

/// The header hex text of a long-enough upper-case hex string is 256
/// upper-case hex digits.
proof fn lemma_header_hex_shape(s: Seq<u8>)
    requires
        s.len() >= 224,
        s.len() <= 0xffff_ffff_ffff_ffff,
        forall|i: int| 0 <= i < s.len() ==> is_upper_hex_digit(#[trigger] s[i]),
    ensures
        header_hex_spec(s).len() == 256,
        forall|i: int| 0 <= i < 256 ==> is_upper_hex_digit(#[trigger] header_hex_spec(s)[i]),
{
    let n = row_units_spec(s.len() as int) as nat;
    assert(s.len() as int / 96 <= s.len() as int);
    assert(pow16(16nat) == 0x1_0000_0000_0000_0000) by {
        reveal_with_fuel(pow16, 18);
    }
    assert(n < pow16(16nat));
    lemma_uhex_len(n, 16nat);
    lemma_uhex_digits(n);
    lemma_preamble_digits();
    let combined = preamble_spec() + front_spec(n) + end_spec(n);
    assert(front_spec(n).len() <= 16);
    assert(end_spec(n).len() == 2);
    assert(combined.len() <= 30);
    let padded = pad_right_spec(combined, 32);
    assert(padded.len() == 32);
    assert(forall|i: int|
        0 <= i < front_spec(n).len() ==> is_upper_hex_digit(#[trigger] front_spec(n)[i]));
    assert(is_upper_hex_digit(48u8));
    assert(forall|i: int|
        0 <= i < end_spec(n).len() ==> is_upper_hex_digit(#[trigger] end_spec(n)[i]));
    assert(forall|i: int| 0 <= i < combined.len() ==> is_upper_hex_digit(#[trigger] combined[i]));
    assert(forall|i: int| 0 <= i < 32 ==> is_upper_hex_digit(#[trigger] padded[i]));
    let hh = header_hex_spec(s);
    assert(hh.len() == 256);
    assert forall|i: int| 0 <= i < 256 implies is_upper_hex_digit(#[trigger] hh[i]) by {
        if i < 32 {
            assert(hh[i] == padded[i]);
        } else {
            assert(hh[i] == s[i - 32]);
        }
    }
}

/// Upper-case hex digits are hex digits.
proof fn lemma_upper_is_hex(s: Seq<u8>)
    requires
        forall|i: int| 0 <= i < s.len() ==> is_upper_hex_digit(#[trigger] s[i]),
    ensures
        forall|i: int| 0 <= i < s.len() ==> is_hex_digit(#[trigger] s[i]),
{
}

/// Renders a number in upper-case hex, no leading zeros.
pub fn to_uhex(n: usize) -> (r: Vec<u8>)
    ensures
        r@ == uhex_spec(n as nat),
    decreases n,
{
    if n < 16 {
        let mut r: Vec<u8> = Vec::new();
        r.push(hex_digit_exec(n as u8));
        proof {
            assert(r@ =~= uhex_spec(n as nat));
        }
        r
    } else {
        let mut r = to_uhex(n / 16);
        r.push(hex_digit_exec((n % 16) as u8));
        proof {
            assert((n as nat) / 16 == (n / 16) as nat);
            assert((n as nat) % 16 == (n % 16) as nat);
            assert(r@ =~= uhex_spec(n as nat));
        }
        r
    }
}

/// Appends one byte vector to another.
fn append_bytes(dst: &mut Vec<u8>, src: &Vec<u8>)
    ensures
        final(dst)@ == old(dst)@ + src@,
{
    let mut i: usize = 0;
    while i < src.len()
        invariant
            i <= src@.len(),
            dst@ =~= old(dst)@ + src@.subrange(0, i as int),
        decreases src@.len() - i,
    {
        dst.push(src[i]);
        i = i + 1;
        proof {
            assert(dst@ =~= old(dst)@ + src@.subrange(0, i as int));
        }
    }
    proof {
        assert(dst@ =~= old(dst)@ + src@);
    }
}

/// Appends the range `[from, to)` of a byte vector to another.
fn append_range(dst: &mut Vec<u8>, src: &Vec<u8>, from: usize, to: usize)
    requires
        from <= to <= src@.len(),
    ensures
        final(dst)@ == old(dst)@ + src@.subrange(from as int, to as int),
{
    let mut i: usize = from;
    while i < to
        invariant
            from <= i <= to <= src@.len(),
            dst@ =~= old(dst)@ + src@.subrange(from as int, i as int),
        decreases to - i,
    {
        dst.push(src[i]);
        i = i + 1;
        proof {
            assert(dst@ =~= old(dst)@ + src@.subrange(from as int, i as int));
        }
    }
    proof {
        assert(dst@ =~= old(dst)@ + src@.subrange(from as int, to as int));
    }
}

/// Pads a hex string on the right with `'0'` up to a width.
fn pad_right(v: &mut Vec<u8>, w: usize)
    ensures
        final(v)@ == pad_right_spec(old(v)@, w as int),
{
    while v.len() < w
        invariant
            old(v)@.len() <= v@.len(),
            v@.len() <= if old(v)@.len() >= w {
                old(v)@.len() as int
            } else {
                w as int
            },
            v@ =~= old(v)@ + Seq::new((v@.len() - old(v)@.len()) as nat, |i: int| 48u8),
        decreases w - v@.len(),
    {
        v.push(48u8);
        proof {
            assert(v@ =~= old(v)@ + Seq::new((v@.len() - old(v)@.len()) as nat, |i: int| 48u8));
        }
    }
    proof {
        if old(v)@.len() >= w {
            assert(v@ =~= old(v)@);
        } else {
            assert(v@ =~= pad_right_spec(old(v)@, w as int));
        }
    }
}

/// Builds the decoded packets for a bitmap hex string: the header packet
/// followed by the payload chunks in ascending offset order.
pub fn packets_from_hex(s: &Vec<u8>) -> (r: Vec<Vec<u8>>)
    requires
        224 <= s@.len(),
        s@.len() % 2 == 0,
        forall|i: int| 0 <= i < s@.len() ==> is_upper_hex_digit(#[trigger] s@[i]),
    ensures
        r@.len() == 1 + chunk_count_spec(s@.len() as int),
        r@[0]@ == decode_spec(header_hex_spec(s@)),
        forall|j: int|
            0 <= j < chunk_count_spec(s@.len() as int) ==> #[trigger] r@[j + 1]@ == decode_spec(
                chunk_hex_spec(s@, j),
            ),
{
    let len = s.len();
    let ru: usize = len / 96 + 3;
    let hl = to_uhex(ru);
    proof {
        assert(ru as nat == row_units_spec(s@.len() as int) as nat);
    }
    let ghost n = row_units_spec(s@.len() as int) as nat;
    let mut front: Vec<u8>;
    let mut tail: Vec<u8> = Vec::new();
    tail.push(48u8);
    if hl.len() > 2 {
        front = Vec::new();
        let mut i: usize = 1;
        while i < hl.len()
            invariant
                1 <= i <= hl@.len(),
                front@ =~= hl@.subrange(1, i as int),
            decreases hl@.len() - i,
        {
            front.push(hl[i]);
            i = i + 1;
            proof {
                assert(front@ =~= hl@.subrange(1, i as int));
            }
        }
        tail.push(hl[0]);
        proof {
            assert(front@ =~= uhex_spec(n).drop_first());
            assert(front@ == front_spec(n));
            assert(tail@ =~= end_spec(n));
        }
    } else {
        front = hl;
        tail.push(48u8);
        proof {
            assert(front@ == front_spec(n));
            assert(tail@ =~= end_spec(n));
        }
    }
    let mut hh: Vec<u8> = Vec::new();
    hh.push(49u8);
    hh.push(68u8);
    hh.push(55u8);
    hh.push(54u8);
    hh.push(51u8);
    hh.push(48u8);
    hh.push(48u8);
    hh.push(48u8);
    hh.push(51u8);
    hh.push(48u8);
    hh.push(48u8);
    hh.push(48u8);
    proof {
        assert(hh@ =~= preamble_spec());
    }
    append_bytes(&mut hh, &front);
    append_bytes(&mut hh, &tail);
    pad_right(&mut hh, 32);
    append_range(&mut hh, s, 0, 224);
    proof {
        assert(hh@ == header_hex_spec(s@));
        lemma_header_hex_shape(s@);
        lemma_upper_is_hex(hh@);
    }
    let header = match decode_hex(&hh) {
        Ok(v) => v,
        Err(_) => {
            proof {
                assert(false);
            }
            Vec::new()
        },
    };
    let mut packets: Vec<Vec<u8>> = Vec::new();
    packets.push(header);
    let ghost cc = chunk_count_spec(s@.len() as int);
    let d: usize = len - 224;
    let tc: usize = d / 256 + if d % 256 == 0 {
        0
    } else {
        1
    };
    proof {
        vstd::arithmetic::div_mod::lemma_fundamental_div_mod(d as int, 256);
        let q = d as int / 256;
        let rm = d as int % 256;
        if rm == 0 {
            vstd::arithmetic::div_mod::lemma_fundamental_div_mod_converse(
                d as int + 255,
                256,
                q,
                255,
            );
        } else {
            vstd::arithmetic::div_mod::lemma_fundamental_div_mod_converse(
                d as int + 255,
                256,
                q + 1,
                rm - 1,
            );
        }
        assert(tc as int == cc);
    }
    let mut ci: usize = 0;
    while ci < tc
        invariant
            ci <= tc,
            tc as int == cc,
            cc == chunk_count_spec(s@.len() as int),
            len == s@.len(),
            224 <= s@.len(),
            s@.len() % 2 == 0,
            d == len - 224,
            tc as int <= (d as int + 255) / 256,
            forall|i: int| 0 <= i < s@.len() ==> is_upper_hex_digit(#[trigger] s@[i]),
            packets@.len() == 1 + ci,
            packets@[0]@ == decode_spec(header_hex_spec(s@)),
            forall|j: int|
                0 <= j < ci ==> #[trigger] packets@[j + 1]@ == decode_spec(chunk_hex_spec(s@, j)),
        decreases tc - ci,
    {
        proof {
            assert(256 * ci as int <= 256 * (tc as int - 1)) by (nonlinear_arith)
                requires
                    ci as int <= tc as int - 1,
            ;
            assert(256 * (tc as int) <= d as int + 255) by (nonlinear_arith)
                requires
                    tc as int <= (d as int + 255) / 256,
                    d >= 0,
            ;
        }
        let start: usize = 224 + 256 * ci;
        proof {
            assert(start < len);
        }
        let remaining: usize = len - start;
        let stop: usize = if remaining >= 256 {
            start + 256
        } else {
            len
        };
        let mut chunk: Vec<u8> = Vec::new();
        append_range(&mut chunk, s, start, stop);
        pad_right(&mut chunk, 256);
        proof {
            assert(chunk@ == chunk_hex_spec(s@, ci as int));
            assert(chunk@.len() == 256);
            assert forall|i: int| 0 <= i < chunk@.len() implies is_hex_digit(
                #[trigger] chunk@[i],
            ) by {
                let raw = s@.subrange(start as int, stop as int);
                if i < raw.len() {
                    assert(chunk@[i] == s@[start + i]);
                } else {
                    assert(chunk@[i] == 48u8);
                }
            }
        }
        let decoded = match decode_hex(&chunk) {
            Ok(v) => v,
            Err(_) => {
                proof {
                    assert(false);
                }
                Vec::new()
            },
        };
        packets.push(decoded);
        ci = ci + 1;
        proof {
            assert(forall|j: int|
                0 <= j < ci ==> #[trigger] packets@[j + 1]@ == decode_spec(chunk_hex_spec(s@, j)));
        }
    }
    packets
}

/// Serializes a monochrome bitmap into its complete ordered print job:
/// header packet, payload chunks in ascending offset order, stop command.
pub fn encode_print_job(bm: &MonochromeBitmap) -> (job: PrintJob)
    requires
        bm.wf(),
        bm.height >= 3,
    ensures
        packet_views(job.packets@) == print_job_spec(encode_spec(bm.data@)),
{
    let hexs = encode_hex(&bm.data);
    proof {
        lemma_decode_encode(bm.data@);
        assert(hexs@.len() == 96 * bm.height);
        assert(hexs@.len() >= 224);
    }
    let mut packets = packets_from_hex(&hexs);
    let ghost before = packets@;
    packets.push(stop_print_jobs());
    proof {
        let s = encode_spec(bm.data@);
        let cc = chunk_count_spec(s.len() as int);
        assert forall|i: int| 0 <= i < packets@.len() implies packet_views(packets@)[i]
            == print_job_spec(s)[i] by {
            if i < before.len() {
                assert(packets@[i] == before[i]);
                if i == 0 {
                } else {
                    assert(before[(i - 1) + 1]@ == decode_spec(chunk_hex_spec(s, i - 1)));
                }
            } else {
                assert(packets@[i]@ == stop_print_jobs_spec());
            }
        }
        assert(packet_views(packets@) =~= print_job_spec(s));
    }
    PrintJob { packets }
}

/// Dithers a canvas and serializes the bitmap into its print job in one
/// step.  `None` exactly when the canvas is shorter than the three rows the
/// header packet's 224 hex characters need.
pub fn job_from_canvas(c: &crate::dither::Canvas) -> (r: Option<PrintJob>)
    requires
        c.wf(),
    ensures
        r is Some <==> c.height >= 3,
        r is Some ==> packet_views(r->0.packets@) == print_job_spec(
            encode_spec(crate::dither::dither_spec(c.pixels@, c.height as int)),
        ),
{
    if c.height >= 3 {
        let bm = crate::dither::dither(c);
        Some(encode_print_job(&bm))
    } else {
        None
    }
}

/// Header-length law: a bitmap hex string of length exactly `96 k` yields
/// the length value `k + 3`.
pub proof fn lemma_row_units_exact(len: int, k: int)
    requires
        k >= 0,
        len == 96 * k,
    ensures
        row_units_spec(len) == k + 3,
{
    vstd::arithmetic::div_mod::lemma_fundamental_div_mod_converse(len, 96, k, 0);
}

/// Length-field split law: a rendered length of at most two digits passes
/// through whole with an `"00"` end marker; a longer one moves its leading
/// digit behind a zero into the end pair.
pub proof fn lemma_len_field_split(n: nat)
    ensures
        uhex_spec(n).len() <= 2 ==> front_spec(n) == uhex_spec(n) && end_spec(n) == seq![
            48u8,
            48u8,
        ],
        uhex_spec(n).len() > 2 ==> front_spec(n) == uhex_spec(n).drop_first() && end_spec(n)
            == seq![48u8, uhex_spec(n)[0]],
{
}

/// Chunking law, exact case: a hex string of length exactly `224 + 256 n`
/// yields `n` full chunks, none of them padded.
pub proof fn lemma_chunking_exact(s: Seq<u8>, n: int)
    requires
        n >= 0,
        s.len() == 224 + 256 * n,
    ensures
        chunk_count_spec(s.len() as int) == n,
        forall|i: int|
            0 <= i < n ==> #[trigger] chunk_hex_spec(s, i) == s.subrange(
                224 + 256 * i,
                224 + 256 * (i + 1),
            ),
{
    vstd::arithmetic::div_mod::lemma_fundamental_div_mod_converse(256 * n + 255, 256, n, 255);
    assert forall|i: int| 0 <= i < n implies #[trigger] chunk_hex_spec(s, i) == s.subrange(
        224 + 256 * i,
        224 + 256 * (i + 1),
    ) by {
        assert(256 * (i + 1) <= 256 * n) by (nonlinear_arith)
            requires
                i + 1 <= n,
        ;
        assert(224 + 256 * i + 256 <= s.len());
    }
}

/// Chunking law, padded case: a hex string of length `224 + 256 n + r` with
/// `0 < r < 256` yields `n + 1` chunks, the last one right-padded with
/// exactly `256 - r` `'0'` characters.
pub proof fn lemma_chunking_padded(s: Seq<u8>, n: int, r: int)
    requires
        n >= 0,
        0 < r < 256,
        s.len() == 224 + 256 * n + r,
    ensures
        chunk_count_spec(s.len() as int) == n + 1,
        chunk_hex_spec(s, n) == s.subrange(224 + 256 * n, s.len() as int) + Seq::new(
            (256 - r) as nat,
            |i: int| 48u8,
        ),
{
    vstd::arithmetic::div_mod::lemma_fundamental_div_mod_converse(
        256 * n + r + 255,
        256,
        n + 1,
        r - 1,
    );
    let from = 224 + 256 * n;
    let raw = s.subrange(from, s.len() as int);
    assert(raw.len() == r);
    assert(chunk_hex_spec(s, n) == pad_right_spec(raw, 256));
}

} // verus!
