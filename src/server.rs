use vstd::prelude::*;
use crate::crc::{calc_rtu_crc, crc_of};
use crate::context::{
    bools_bytes, bytes_bools, bytes_words, get_bools_as_bytes, get_words_as_bytes, range_ok,
    set_bools_from_bytes, set_words_from_bytes, with_cell, words_bytes, written, ContextView,
    ModbusContext,
};

verus! {

/// A Modbus frame buffer: the largest Modbus message, header included, fits in 256 bytes.
pub type ModbusFrame = [u8; 256];

/// How frames are carried: TCP/UDP frames start with a 6-byte header, RTU frames end with a
/// checksum.
#[derive(PartialEq, Eq, Structural, Debug, Copy, Clone)]
pub enum ModbusProto {
    Rtu,
    TcpUdp,
}

/// Exception code: the function code is not supported.
pub const ILLEGAL_FUNCTION: u8 = 0x01;

/// Exception code: an address of the request lies outside the bank.
pub const ILLEGAL_DATA_ADDRESS: u8 = 0x02;

/// Exception code: a value of the request is not acceptable.
pub const ILLEGAL_DATA_VALUE: u8 = 0x03;

/// The 16-bit value of two bytes, high byte first.
pub open spec fn be16(hi: u8, lo: u8) -> int {
    hi as int * 256 + lo as int
}

/// The offset of the unit id in a frame.
pub open spec fn unit_pos(proto: ModbusProto) -> int {
    match proto {
        ModbusProto::Rtu => 0,
        ModbusProto::TcpUdp => 6,
    }
}

/// A TCP/UDP header must carry protocol id 0 and a length of at least 6; RTU has no header.
pub open spec fn header_ok(f: Seq<u8>, proto: ModbusProto) -> bool {
    match proto {
        ModbusProto::Rtu => true,
        ModbusProto::TcpUdp => be16(f[2], f[3]) == 0 && be16(f[4], f[5]) >= 6,
    }
}

/// Unit ids 0 and 255 address every unit.
pub open spec fn is_broadcast(unit: u8) -> bool {
    unit == 0 || unit == 255
}

/// For RTU, the two bytes after the first `len` bytes of the frame hold their checksum, low byte
/// first; TCP/UDP carries no checksum.
pub open spec fn crc_ok(f: Seq<u8>, proto: ModbusProto, len: int) -> bool {
    match proto {
        ModbusProto::Rtu => len + 2 <= f.len() && crc_of(f.subrange(0, len)) as int == be16(
            f[len + 1],
            f[len],
        ),
        ModbusProto::TcpUdp => true,
    }
}

/// An exception payload: unit id, function code with its high bit set, exception code.
pub open spec fn exception(f: Seq<u8>, proto: ModbusProto, code: u8) -> Seq<u8> {
    let s = unit_pos(proto);
    seq![f[s], f[s + 1] | 0x80u8, code]
}

/// The first `n` bytes of the request from the unit id on.
pub open spec fn echo(f: Seq<u8>, proto: ModbusProto, n: int) -> Seq<u8> {
    f.subrange(unit_pos(proto), unit_pos(proto) + n)
}

/// A payload made into a reply: TCP/UDP puts the transaction and protocol ids of the request
/// (unless it was a broadcast) and the payload's length before it; RTU appends its checksum,
/// low byte first.
pub open spec fn sealed(f: Seq<u8>, proto: ModbusProto, broadcast: bool, p: Seq<u8>) -> Seq<u8> {
    match proto {
        ModbusProto::TcpUdp => (if broadcast {
            Seq::empty()
        } else {
            f.subrange(0, 4)
        }) + seq![(p.len() / 256) as u8, (p.len() % 256) as u8] + p,
        ModbusProto::Rtu => p + seq![(crc_of(p) % 256) as u8, (crc_of(p) / 256) as u8],
    }
}

/// The packed values that a read function (1 to 4) asks of the context, or none when the
/// range leaves the bank.
pub open spec fn read_data(ctx: ContextView, func: u8, reg: int, count: int) -> Option<Seq<u8>> {
    if func == 1 || func == 2 {
        let bank = if func == 1 {
            ctx.coils
        } else {
            ctx.discretes
        };
        if range_ok(bank.len() as int, reg, count) {
            Some(bools_bytes(bank.subrange(reg, reg + count)))
        } else {
            None
        }
    } else {
        let bank = if func == 3 {
            ctx.holdings
        } else {
            ctx.inputs
        };
        if range_ok(bank.len() as int, reg, count) {
            Some(words_bytes(bank.subrange(reg, reg + count)))
        } else {
            None
        }
    }
}

/// The payload answering a read function (1 to 4); reads change nothing.
pub open spec fn read_answer(ctx: ContextView, f: Seq<u8>, proto: ModbusProto, broadcast: bool) -> Option<Seq<u8>> {
    let s = unit_pos(proto);
    let func = f[s + 1];
    let reg = be16(f[s + 2], f[s + 3]);
    let count = be16(f[s + 4], f[s + 5]);
    if broadcast || !crc_ok(f, proto, 6) {
        None
    } else if ((func == 1 || func == 2) && count > 2000) || ((func == 3 || func == 4) && count > 125) {
        Some(exception(f, proto, ILLEGAL_DATA_VALUE))
    } else {
        match read_data(ctx, func, reg, count) {
            Some(d) => Some(echo(f, proto, 2) + seq![d.len() as u8] + d),
            None => Some(exception(f, proto, ILLEGAL_DATA_ADDRESS)),
        }
    }
}

/// A payload that a broadcast does not get.
pub open spec fn unless_broadcast(broadcast: bool, p: Seq<u8>) -> Option<Seq<u8>> {
    if broadcast {
        None
    } else {
        Some(p)
    }
}

/// The payload and the new context for a single write (function 5, one coil, or 6, one holding
/// register).
pub open spec fn single_write(ctx: ContextView, f: Seq<u8>, proto: ModbusProto, broadcast: bool) -> (Option<Seq<u8>>, ContextView) {
    let s = unit_pos(proto);
    let func = f[s + 1];
    let reg = be16(f[s + 2], f[s + 3]);
    let val = be16(f[s + 4], f[s + 5]);
    if !crc_ok(f, proto, 6) {
        (None, ctx)
    } else if func == 5 && val != 0xFF00 && val != 0 {
        (unless_broadcast(broadcast, exception(f, proto, ILLEGAL_DATA_VALUE)), ctx)
    } else {
        let next = if func == 5 {
            match with_cell(ctx.coils, reg, val == 0xFF00) {
                Ok(c) => Some(ContextView { coils: c, ..ctx }),
                Err(_) => None,
            }
        } else {
            match with_cell(ctx.holdings, reg, val as u16) {
                Ok(h) => Some(ContextView { holdings: h, ..ctx }),
                Err(_) => None,
            }
        };
        match next {
            Some(c) => (unless_broadcast(broadcast, echo(f, proto, 6)), c),
            None => (unless_broadcast(broadcast, exception(f, proto, ILLEGAL_DATA_ADDRESS)), ctx),
        }
    }
}

/// The payload and the new context for a multiple write (function 15, coils, or 16, holding
/// registers).
pub open spec fn multiple_write(ctx: ContextView, f: Seq<u8>, proto: ModbusProto, broadcast: bool) -> (Option<Seq<u8>>, ContextView) {
    let s = unit_pos(proto);
    let func = f[s + 1];
    let reg = be16(f[s + 2], f[s + 3]);
    let count = be16(f[s + 4], f[s + 5]);
    let bytes = f[s + 6] as int;
    let data = f.subrange(s + 7, s + 7 + bytes);
    if !crc_ok(f, proto, 7 + bytes) {
        (None, ctx)
    } else if bytes > 242 {
        (unless_broadcast(broadcast, exception(f, proto, ILLEGAL_DATA_VALUE)), ctx)
    } else {
        let next = if func == 15 {
            if range_ok(ctx.coils.len() as int, reg, count) && bytes >= (count + 7) / 8 {
                Some(ContextView { coils: written(ctx.coils, reg, bytes_bools(data, count)), ..ctx })
            } else {
                None
            }
        } else {
            if bytes % 2 == 0 && range_ok(ctx.holdings.len() as int, reg, bytes / 2) {
                Some(ContextView { holdings: written(ctx.holdings, reg, bytes_words(data)), ..ctx })
            } else {
                None
            }
        };
        match next {
            Some(c) => (unless_broadcast(broadcast, echo(f, proto, 6)), c),
            None => (unless_broadcast(broadcast, exception(f, proto, ILLEGAL_DATA_ADDRESS)), ctx),
        }
    }
}

/// What a frame does: the payload of the reply, if any, and the context afterwards.
pub open spec fn frame_effect(ctx: ContextView, unit_id: u8, f: Seq<u8>, proto: ModbusProto) -> (Option<Seq<u8>>, ContextView) {
    let s = unit_pos(proto);
    let unit = f[s];
    let func = f[s + 1];
    let broadcast = is_broadcast(unit);
    if !header_ok(f, proto) || (!broadcast && unit != unit_id) {
        (None, ctx)
    } else if 1 <= func <= 4 {
        (read_answer(ctx, f, proto, broadcast), ctx)
    } else if func == 5 || func == 6 {
        single_write(ctx, f, proto, broadcast)
    } else if func == 15 || func == 16 {
        multiple_write(ctx, f, proto, broadcast)
    } else {
        (Some(exception(f, proto, ILLEGAL_FUNCTION)), ctx)
    }
}

/// The reply to a frame, ready to send, if any.
pub open spec fn frame_reply(ctx: ContextView, unit_id: u8, f: Seq<u8>, proto: ModbusProto) -> Option<Seq<u8>> {
    match frame_effect(ctx, unit_id, f, proto).0 {
        Some(p) => Some(sealed(f, proto, is_broadcast(f[unit_pos(proto)]), p)),
        None => None,
    }
}


/// The contents of an optional byte buffer.
pub open spec fn opt_view(o: Option<Vec<u8>>) -> Option<Seq<u8>> {
    match o {
        Some(v) => Some(v@),
        None => None,
    }
}

/// A payload short enough for any reply: at most 253 bytes.
pub open spec fn fits(o: Option<Vec<u8>>) -> bool {
    o is Some ==> o->Some_0@.len() <= 253
}

/// The offset of the unit id in a frame.
fn start_of(proto: ModbusProto) -> (r: usize)
    ensures
        r as int == unit_pos(proto),
{
    match proto {
        ModbusProto::Rtu => 0,
        ModbusProto::TcpUdp => 6,
    }
}

/// The 16-bit value of `frame[i]` and `frame[i + 1]`, high byte first.
fn be16_at(frame: &ModbusFrame, i: usize) -> (r: u16)
    requires
        i + 1 < 256,
    ensures
        r as int == be16(frame@[i as int], frame@[i + 1]),
{
    (frame[i] as u16) * 256 + frame[i + 1] as u16
}

/// Whether the checksum gate lets the frame through, the checksum covering `len` bytes.
fn crc_matches(frame: &ModbusFrame, proto: ModbusProto, len: usize) -> (r: bool)
    requires
        len <= 512,
    ensures
        r == crc_ok(frame@, proto, len as int),
{
    match proto {
        ModbusProto::TcpUdp => true,
        ModbusProto::Rtu => {
            if len + 2 > 256 {
                false
            } else {
                let whole: &[u8] = frame.as_slice();
                let c: u16 = calc_rtu_crc(whole, len as u8);
                c == (frame[len + 1] as u16) * 256 + frame[len] as u16
            }
        },
    }
}

/// Appends the bytes of `src` to `out`.
fn push_all(out: &mut Vec<u8>, src: &Vec<u8>)
    requires
        old(out)@.len() + src@.len() <= usize::MAX,
    ensures
        final(out)@ == old(out)@ + src@,
{
    let mut i: usize = 0;
    while i < src.len()
        invariant
            i <= src@.len(),
            out@ == old(out)@ + src@.subrange(0, i as int),
        decreases src@.len() - i,
    {
        out.push(src[i]);
        i = i + 1;
        assert(out@ =~= old(out)@ + src@.subrange(0, i as int));
    }
    assert(src@.subrange(0, src@.len() as int) =~= src@);
}

/// The bytes `frame[from .. from + n]`.
fn frame_bytes(frame: &ModbusFrame, from: usize, n: usize) -> (r: Vec<u8>)
    requires
        from + n <= 256,
    ensures
        r@ == frame@.subrange(from as int, from + n),
{
    let mut r: Vec<u8> = Vec::new();
    let mut i: usize = 0;
    while i < n
        invariant
            from + n <= 256,
            i <= n,
            r@ == frame@.subrange(from as int, from + i),
        decreases n - i,
    {
        r.push(frame[from + i]);
        i = i + 1;
        assert(r@ =~= frame@.subrange(from as int, from + i));
    }
    r
}

/// The exception payload for `code`.
fn exception_reply(frame: &ModbusFrame, proto: ModbusProto, code: u8) -> (r: Vec<u8>)
    ensures
        r@ == exception(frame@, proto, code),
{
    let s: usize = start_of(proto);
    let mut r: Vec<u8> = Vec::new();
    r.push(frame[s]);
    r.push(frame[s + 1] | 0x80);
    r.push(code);
    assert(r@ =~= exception(frame@, proto, code));
    r
}

/// Makes a payload into a reply; see `sealed`.
fn seal(frame: &ModbusFrame, proto: ModbusProto, broadcast: bool, payload: Vec<u8>) -> (r: Vec<u8>)
    requires
        payload@.len() <= 253,
    ensures
        r@ == sealed(frame@, proto, broadcast, payload@),
{
    match proto {
        ModbusProto::TcpUdp => {
            let mut r: Vec<u8> = if broadcast {
                Vec::new()
            } else {
                frame_bytes(frame, 0, 4)
            };
            let n: usize = payload.len();
            r.push((n / 256) as u8);
            r.push((n % 256) as u8);
            push_all(&mut r, &payload);
            assert(r@ =~= sealed(frame@, proto, broadcast, payload@));
            r
        },
        ModbusProto::Rtu => {
            let c: u16 = calc_rtu_crc(payload.as_slice(), payload.len() as u8);
            assert(payload@.subrange(0, payload@.len() as int) =~= payload@);
            let mut r: Vec<u8> = payload;
            r.push((c % 256) as u8);
            r.push((c / 256) as u8);
            assert(r@ =~= sealed(frame@, proto, broadcast, payload@));
            r
        },
    }
}

/// Answers a read function (1 to 4).
fn read_request(ctx: &ModbusContext, frame: &ModbusFrame, proto: ModbusProto, broadcast: bool) -> (r: Option<Vec<u8>>)
    requires
        1 <= frame@[unit_pos(proto) + 1] <= 4,
    ensures
        opt_view(r) == read_answer(ctx@, frame@, proto, broadcast),
        fits(r),
{
    let s: usize = start_of(proto);
    if broadcast || !crc_matches(frame, proto, 6) {
        return None;
    }
    let func: u8 = frame[s + 1];
    let reg: u16 = be16_at(frame, s + 2);
    let count: u16 = be16_at(frame, s + 4);
    if ((func == 1 || func == 2) && count > 2000) || ((func == 3 || func == 4) && count > 125) {
        return Some(exception_reply(frame, proto, ILLEGAL_DATA_VALUE));
    }
    let result = if func == 1 {
        get_bools_as_bytes(reg, count, &ctx.coils)
    } else if func == 2 {
        get_bools_as_bytes(reg, count, &ctx.discretes)
    } else if func == 3 {
        get_words_as_bytes(reg, count, &ctx.holdings)
    } else {
        get_words_as_bytes(reg, count, &ctx.inputs)
    };
    match result {
        Ok(data) => {
            assert(data@.len() <= 250);
            let mut p: Vec<u8> = frame_bytes(frame, s, 2);
            p.push(data.len() as u8);
            push_all(&mut p, &data);
            assert(p@ =~= echo(frame@, proto, 2) + seq![data@.len() as u8] + data@);
            Some(p)
        },
        Err(_) => Some(exception_reply(frame, proto, ILLEGAL_DATA_ADDRESS)),
    }
}

/// Carries out a single write (function 5 or 6).
fn single_write_request(ctx: &mut ModbusContext, frame: &ModbusFrame, proto: ModbusProto, broadcast: bool) -> (r: Option<Vec<u8>>)
    requires
        frame@[unit_pos(proto) + 1] == 5 || frame@[unit_pos(proto) + 1] == 6,
    ensures
        (opt_view(r), final(ctx)@) == single_write(old(ctx)@, frame@, proto, broadcast),
        fits(r),
{
    let s: usize = start_of(proto);
    if !crc_matches(frame, proto, 6) {
        return None;
    }
    let func: u8 = frame[s + 1];
    let reg: u16 = be16_at(frame, s + 2);
    let val: u16 = be16_at(frame, s + 4);
    let result = if func == 5 {
        if val != 0xff00 && val != 0 {
            if broadcast {
                return None;
            } else {
                return Some(exception_reply(frame, proto, ILLEGAL_DATA_VALUE));
            }
        }
        crate::context::set(reg, val == 0xff00, &mut ctx.coils)
    } else {
        crate::context::set(reg, val, &mut ctx.holdings)
    };
    if broadcast {
        None
    } else {
        match result {
            Ok(_) => Some(frame_bytes(frame, s, 6)),
            Err(_) => Some(exception_reply(frame, proto, ILLEGAL_DATA_ADDRESS)),
        }
    }
}

/// Carries out a multiple write (function 15 or 16).
fn multiple_write_request(ctx: &mut ModbusContext, frame: &ModbusFrame, proto: ModbusProto, broadcast: bool) -> (r: Option<Vec<u8>>)
    requires
        frame@[unit_pos(proto) + 1] == 15 || frame@[unit_pos(proto) + 1] == 16,
    ensures
        (opt_view(r), final(ctx)@) == multiple_write(old(ctx)@, frame@, proto, broadcast),
        fits(r),
{
    let s: usize = start_of(proto);
    let bytes: u8 = frame[s + 6];
    if !crc_matches(frame, proto, 7 + bytes as usize) {
        return None;
    }
    if bytes > 242 {
        if broadcast {
            return None;
        } else {
            return Some(exception_reply(frame, proto, ILLEGAL_DATA_VALUE));
        }
    }
    let func: u8 = frame[s + 1];
    let reg: u16 = be16_at(frame, s + 2);
    let count: u16 = be16_at(frame, s + 4);
    let data: Vec<u8> = frame_bytes(frame, s + 7, bytes as usize);
    let result = if func == 15 {
        set_bools_from_bytes(reg, count, &data, &mut ctx.coils)
    } else {
        set_words_from_bytes(reg, &data, &mut ctx.holdings)
    };
    if broadcast {
        None
    } else {
        match result {
            Ok(_) => Some(frame_bytes(frame, s, 6)),
            Err(_) => Some(exception_reply(frame, proto, ILLEGAL_DATA_ADDRESS)),
        }
    }
}

/// Processes one request frame against the context: decodes it, reads or writes the banks it
/// names, and returns the reply to send, or nothing when the frame is malformed, fails its
/// checksum, is addressed to another unit, or is a broadcast that gets no answer.
pub fn process_frame(unit_id: u8, frame: &ModbusFrame, proto: ModbusProto, ctx: &mut ModbusContext) -> (r: Option<Vec<u8>>)
    ensures
        opt_view(r) == frame_reply(old(ctx)@, unit_id, frame@, proto),
        final(ctx)@ == frame_effect(old(ctx)@, unit_id, frame@, proto).1,
{
    let s: usize = match proto {
        ModbusProto::Rtu => 0,
        ModbusProto::TcpUdp => {
            if be16_at(frame, 2) != 0 || be16_at(frame, 4) < 6 {
                return None;
            }
            6
        },
    };
    let unit: u8 = frame[s];
    let broadcast: bool = unit == 0 || unit == 255;
    if !broadcast && unit != unit_id {
        return None;
    }
    let func: u8 = frame[s + 1];
    let payload = if 1 <= func && func <= 4 {
        read_request(ctx, frame, proto, broadcast)
    } else if func == 5 || func == 6 {
        single_write_request(ctx, frame, proto, broadcast)
    } else if func == 15 || func == 16 {
        multiple_write_request(ctx, frame, proto, broadcast)
    } else {
        Some(exception_reply(frame, proto, ILLEGAL_FUNCTION))
    };
    match payload {
        Some(p) => Some(seal(frame, proto, broadcast, p)),
        None => None,
    }
}


/// A read request (functions 1 to 4) addressed to this unit whose count exceeds the limit of its
/// kind (2000 booleans, 125 words) is answered with exactly the illegal-data-value exception
/// `[unit, function | 0x80, 0x03]`, framed for the transport, and changes nothing.
pub proof fn lemma_read_over_limit(ctx: ContextView, unit_id: u8, f: Seq<u8>, proto: ModbusProto)
    requires
        f.len() == 256,
        header_ok(f, proto),
        f[unit_pos(proto)] == unit_id,
        !is_broadcast(unit_id),
        1 <= f[unit_pos(proto) + 1] <= 4,
        crc_ok(f, proto, 6),
        ((f[unit_pos(proto) + 1] == 1 || f[unit_pos(proto) + 1] == 2) && be16(
            f[unit_pos(proto) + 4],
            f[unit_pos(proto) + 5],
        ) > 2000) || ((f[unit_pos(proto) + 1] == 3 || f[unit_pos(proto) + 1] == 4) && be16(
            f[unit_pos(proto) + 4],
            f[unit_pos(proto) + 5],
        ) > 125),
    ensures
        frame_effect(ctx, unit_id, f, proto) == (
            Some(seq![unit_id, f[unit_pos(proto) + 1] | 0x80u8, 0x03u8]),
            ctx,
        ),
        frame_reply(ctx, unit_id, f, proto) == Some(
            sealed(f, proto, false, seq![unit_id, f[unit_pos(proto) + 1] | 0x80u8, 0x03u8]),
        ),
{
    assert(exception(f, proto, ILLEGAL_DATA_VALUE) =~= seq![
        unit_id,
        f[unit_pos(proto) + 1] | 0x80u8,
        0x03u8,
    ]);
}

/// A frame whose unit id is neither this unit's nor a broadcast id gets no reply and changes
/// no bank.
pub proof fn lemma_other_unit(ctx: ContextView, unit_id: u8, f: Seq<u8>, proto: ModbusProto)
    requires
        f.len() == 256,
        f[unit_pos(proto)] != unit_id,
        !is_broadcast(f[unit_pos(proto)]),
    ensures
        frame_effect(ctx, unit_id, f, proto) == (None::<Seq<u8>>, ctx),
        frame_reply(ctx, unit_id, f, proto) is None,
{
}

/// No frame changes the discrete inputs, the input registers, or the size of any bank.
pub proof fn lemma_frame_keeps_read_only_banks(ctx: ContextView, unit_id: u8, f: Seq<u8>, proto: ModbusProto)
    requires
        f.len() == 256,
    ensures
        frame_effect(ctx, unit_id, f, proto).1.discretes == ctx.discretes,
        frame_effect(ctx, unit_id, f, proto).1.inputs == ctx.inputs,
        frame_effect(ctx, unit_id, f, proto).1.same_sizes(ctx),
{
}

} // verus!
