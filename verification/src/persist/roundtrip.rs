//! Reading a file gives back what writing it put in.

use vstd::prelude::*;

use crate::capability::{
    code_lt, codes_of_type, compatible_caps, equivalent_axes, sorted_codes, type_list, AbsInfo, AbsMeta, Capabilities,
    RepeatInfo,
};
use crate::event::{EventCode, EventType};
use crate::persist::format::{
    abs_type, block_codes, dec_axes, dec_axis, dec_block, dec_blocks, dec_codes, enc_axes, enc_axis, enc_block, enc_blocks,
    enc_codes, encodable, i32_bytes, lemma_codes_of_type_members, lemma_type_list_members, magic, max_code, midpoint,
    read_i32, read_u16, rep_type, spec_decode, spec_encode, spec_encode_body, types_of, u16_bytes, u32_at, u32_bytes,
    decoded_axis, holds_decoded, DecodedView, EV_ABS_BLOCK_NUMBER, EV_REP_BLOCK_NUMBER, FINAL_BLOCK_NUMBER,
};
use crate::event::{EV_ABS, EV_MAX, EV_REP};

verus! {

/// Whether the bytes `x` stand in `s` from position `pos` on.
pub open spec fn bytes_at(s: Seq<u8>, pos: int, x: Seq<u8>) -> bool {
    0 <= pos && pos + x.len() <= s.len() && s.subrange(pos, pos + x.len()) == x
}

proof fn lemma_bytes_at_index(s: Seq<u8>, pos: int, x: Seq<u8>, i: int)
    requires
        bytes_at(s, pos, x),
        0 <= i < x.len(),
    ensures
        s[pos + i] == x[i],
{
    assert(s.subrange(pos, pos + x.len())[i] == s[pos + i]);
}

/// Bytes that stand somewhere stand there in their parts.
proof fn lemma_bytes_at_split(s: Seq<u8>, pos: int, a: Seq<u8>, b: Seq<u8>)
    requires
        bytes_at(s, pos, a + b),
    ensures
        bytes_at(s, pos, a),
        bytes_at(s, pos + a.len(), b),
{
    assert forall|i: int| 0 <= i < a.len() implies s.subrange(pos, pos + a.len())[i] == a[i] by {
        lemma_bytes_at_index(s, pos, a + b, i);
    }
    assert(s.subrange(pos, pos + a.len()) =~= a);
    assert forall|i: int| 0 <= i < b.len() implies s.subrange(pos + a.len(), pos + a.len() + b.len())[i] == b[i] by {
        lemma_bytes_at_index(s, pos, a + b, a.len() + i);
    }
    assert(s.subrange(pos + a.len(), pos + a.len() + b.len()) =~= b);
}

proof fn lemma_u16_round(v: u16)
    ensures
        (v % 256) as u8 as int + 256 * ((v / 256) as u8 as int) == v,
{
    assert((v % 256) as u8 as int + 256 * ((v / 256) as u8 as int) == v) by (bit_vector);
}

proof fn lemma_read_u16_at(s: Seq<u8>, pos: int, v: u16)
    requires
        bytes_at(s, pos, u16_bytes(v)),
    ensures
        read_u16(s, pos) == Some(v),
{
    lemma_bytes_at_index(s, pos, u16_bytes(v), 0);
    lemma_bytes_at_index(s, pos, u16_bytes(v), 1);
    lemma_u16_round(v);
}

proof fn lemma_u32_round(v: u32)
    ensures
        (v % 256) as u8 as int + 256 * (((v / 256) % 256) as u8 as int) + 65536 * (((v / 65536) % 256) as u8 as int)
            + 16777216 * ((v / 16777216) as u8 as int) == v,
{
    assert((v % 256) as u8 as int + 256 * (((v / 256) % 256) as u8 as int) + 65536 * (((v / 65536) % 256) as u8 as int)
        + 16777216 * ((v / 16777216) as u8 as int) == v) by (bit_vector);
}

proof fn lemma_u32_at(s: Seq<u8>, pos: int, v: u32)
    requires
        bytes_at(s, pos, u32_bytes(v)),
    ensures
        u32_at(s, pos) == v,
{
    lemma_bytes_at_index(s, pos, u32_bytes(v), 0);
    lemma_bytes_at_index(s, pos, u32_bytes(v), 1);
    lemma_bytes_at_index(s, pos, u32_bytes(v), 2);
    lemma_bytes_at_index(s, pos, u32_bytes(v), 3);
    lemma_u32_round(v);
}

proof fn lemma_i32_round(v: i32)
    ensures
        (v as u32) as i32 == v,
{
    assert((v as u32) as i32 == v) by (bit_vector);
}

proof fn lemma_i32_at(s: Seq<u8>, pos: int, v: i32)
    requires
        bytes_at(s, pos, i32_bytes(v)),
    ensures
        u32_at(s, pos) as i32 == v,
{
    lemma_u32_at(s, pos, v as u32);
    lemma_i32_round(v);
}

/// The numbers of some codes.
pub open spec fn code_values(cs: Seq<EventCode>) -> Seq<u16> {
    cs.map_values(|c: EventCode| c.code)
}

/// An axis as a file gives it back: its current value becomes the middle of its range.
pub open spec fn stored_axis(info: AbsInfo) -> AbsInfo {
    AbsInfo { meta: AbsMeta { value: midpoint(info.min_value, info.max_value), ..info.meta }, ..info }
}

/// The type blocks that a file holds for types and codes.
pub open spec fn stored_blocks(types: Seq<EventType>, codes: Seq<EventCode>) -> Seq<(u16, Seq<u16>)> {
    types.map_values(|t: EventType| (t.value, code_values(codes_of_type(codes, t))))
}

proof fn lemma_enc_codes_len(cs: Seq<EventCode>)
    ensures
        enc_codes(cs).len() == 2 * cs.len(),
    decreases cs.len(),
{
    if cs.len() > 0 {
        lemma_enc_codes_len(cs.drop_last());
    }
}

proof fn lemma_dec_codes_of(s: Seq<u8>, pos: int, max: int, cs: Seq<EventCode>)
    requires
        bytes_at(s, pos, enc_codes(cs)),
        forall|i: int| 0 <= i < cs.len() ==> (#[trigger] cs[i]).code <= max,
    ensures
        dec_codes(s, pos, max, cs.len()) == Some(code_values(cs)),
    decreases cs.len(),
{
    if cs.len() > 0 {
        let p = cs.drop_last();
        let last = cs.last();
        lemma_bytes_at_split(s, pos, enc_codes(p), u16_bytes(last.code));
        lemma_enc_codes_len(p);
        assert forall|i: int| 0 <= i < p.len() implies (#[trigger] p[i]).code <= max by {
            assert(p[i] == cs[i]);
        }
        lemma_dec_codes_of(s, pos, max, p);
        lemma_read_u16_at(s, pos + 2 * p.len(), last.code);
        assert(cs[cs.len() - 1] == last);
        assert(code_values(cs) =~= code_values(p).push(last.code));
        assert((cs.len() - 1) as nat == p.len());
    }
}

proof fn lemma_dec_block_of(s: Seq<u8>, pos: int, t: EventType, cs: Seq<EventCode>)
    requires
        bytes_at(s, pos, enc_block(t, cs)),
        t.value <= crate::event::EV_MAX,
        cs.len() <= 0xffff,
        forall|i: int| 0 <= i < cs.len() ==> (#[trigger] cs[i]).code <= max_code(t.value),
    ensures
        dec_block(s, pos) == Some((t.value, code_values(cs), pos + 4 + 2 * cs.len())),
{
    let a = u16_bytes(t.value);
    let b = u16_bytes(cs.len() as u16);
    let c = enc_codes(cs);
    assert(enc_block(t, cs) == (a + b) + c);
    lemma_bytes_at_split(s, pos, a + b, c);
    lemma_bytes_at_split(s, pos, a, b);
    lemma_read_u16_at(s, pos, t.value);
    lemma_read_u16_at(s, pos + 2, cs.len() as u16);
    lemma_dec_codes_of(s, pos + 4, max_code(t.value), cs);
}

proof fn lemma_enc_block_len(t: EventType, cs: Seq<EventCode>)
    ensures
        enc_block(t, cs).len() == 4 + 2 * cs.len(),
{
    lemma_enc_codes_len(cs);
}

/// What the types and codes must be like for their blocks to be read back: each type once,
/// known, and with at most 0xffff codes, none beyond the highest of its type.
pub open spec fn blocks_readable(types: Seq<EventType>, codes: Seq<EventCode>) -> bool {
    &&& forall|i: int, j: int| 0 <= i < j < types.len() ==> (#[trigger] types[i]).value != (#[trigger] types[j]).value
    &&& forall|i: int| 0 <= i < types.len() ==> (#[trigger] types[i]).value <= crate::event::EV_MAX
    &&& forall|i: int| 0 <= i < types.len() ==> codes_of_type(codes, #[trigger] types[i]).len() <= 0xffff
    &&& forall|i: int, k: int| 0 <= i < types.len() && 0 <= k < codes_of_type(codes, types[i]).len()
        ==> (#[trigger] codes_of_type(codes, #[trigger] types[i])[k]).code <= max_code(types[i].value)
}

proof fn lemma_dec_blocks_of(s: Seq<u8>, pos: int, types: Seq<EventType>, codes: Seq<EventCode>)
    requires
        bytes_at(s, pos, enc_blocks(types, codes)),
        blocks_readable(types, codes),
    ensures
        dec_blocks(s, pos, types.len()) == Some((stored_blocks(types, codes), pos + enc_blocks(types, codes).len())),
    decreases types.len(),
{
    if types.len() > 0 {
        let p = types.drop_last();
        let t = types.last();
        let cs = codes_of_type(codes, t);
        lemma_bytes_at_split(s, pos, enc_blocks(p, codes), enc_block(t, cs));
        assert(types[types.len() - 1] == t);
        assert(blocks_readable(p, codes)) by {
            assert forall|i: int| 0 <= i < p.len() implies #[trigger] p[i] == types[i] by {}
        }
        lemma_dec_blocks_of(s, pos, p, codes);
        let p1 = pos + enc_blocks(p, codes).len();
        assert forall|k: int| 0 <= k < cs.len() implies (#[trigger] cs[k]).code <= max_code(t.value) by {
            assert(codes_of_type(codes, types[types.len() - 1])[k].code <= max_code(types[types.len() - 1].value));
        }
        lemma_dec_block_of(s, p1, t, cs);
        lemma_enc_block_len(t, cs);
        let blocks = stored_blocks(p, codes);
        assert forall|k: int| 0 <= k < blocks.len() implies (#[trigger] blocks[k]).0 != t.value by {
            assert(blocks[k].0 == p[k].value);
            assert(p[k] == types[k]);
        }
        assert(stored_blocks(types, codes) =~= blocks.push((t.value, code_values(cs))));
        assert((types.len() - 1) as nat == p.len());
    }
}

proof fn lemma_dec_axes_of(s: Seq<u8>, pos: int, cs: Seq<EventCode>, caps: Capabilities)
    requires
        bytes_at(s, pos, enc_axes(cs, caps)),
        forall|i: int| 0 <= i < cs.len() ==> (#[trigger] caps.axis(cs[i])) is Some
            && caps.axis(cs[i]).unwrap().min_value <= caps.axis(cs[i]).unwrap().max_value,
    ensures
        dec_axes(s, pos, cs.len()) == Some(cs.map_values(|c: EventCode| stored_axis(caps.axis(c).unwrap()))),
        enc_axes(cs, caps).len() == 20 * cs.len(),
    decreases cs.len(),
{
    if cs.len() > 0 {
        let p = cs.drop_last();
        let last = cs.last();
        let info = caps.axis(last).unwrap();
        assert(cs[cs.len() - 1] == last);
        lemma_bytes_at_split(s, pos, enc_axes(p, caps), enc_axis(info));
        assert forall|i: int| 0 <= i < p.len() implies (#[trigger] caps.axis(p[i])) is Some
            && caps.axis(p[i]).unwrap().min_value <= caps.axis(p[i]).unwrap().max_value by {
            assert(p[i] == cs[i]);
        }
        lemma_dec_axes_of(s, pos, p, caps);
        let at = pos + 20 * p.len();
        let x0 = i32_bytes(info.min_value);
        let x1 = i32_bytes(info.max_value);
        let x2 = i32_bytes(info.meta.flat);
        let x3 = i32_bytes(info.meta.fuzz);
        let x4 = i32_bytes(info.meta.resolution);
        assert(enc_axis(info) == (((x0 + x1) + x2) + x3) + x4);
        lemma_bytes_at_split(s, at, ((x0 + x1) + x2) + x3, x4);
        lemma_bytes_at_split(s, at, (x0 + x1) + x2, x3);
        lemma_bytes_at_split(s, at, x0 + x1, x2);
        lemma_bytes_at_split(s, at, x0, x1);
        lemma_i32_at(s, at, info.min_value);
        lemma_i32_at(s, at + 4, info.max_value);
        lemma_i32_at(s, at + 8, info.meta.flat);
        lemma_i32_at(s, at + 12, info.meta.fuzz);
        lemma_i32_at(s, at + 16, info.meta.resolution);
        assert(dec_axis(s, at) == Some(stored_axis(info)));
        assert(cs.map_values(|c: EventCode| stored_axis(caps.axis(c).unwrap()))
            =~= p.map_values(|c: EventCode| stored_axis(caps.axis(c).unwrap())).push(stored_axis(info)));
        assert((cs.len() - 1) as nat == p.len());
    }
}

/// The types of sorted codes come in strictly ascending order.
proof fn lemma_type_list_ascending(codes: Seq<EventCode>)
    requires
        sorted_codes(codes),
    ensures
        forall|i: int, j: int| 0 <= i < j < type_list(codes).len()
            ==> (#[trigger] type_list(codes)[i]).value < (#[trigger] type_list(codes)[j]).value,
        codes.len() > 0 ==> type_list(codes).len() > 0 && type_list(codes).last() == codes.last().ev_type,
        forall|i: int| 0 <= i < type_list(codes).len() && codes.len() > 0
            ==> (#[trigger] type_list(codes)[i]).value <= codes.last().ev_type.value,
    decreases codes.len(),
{
    if codes.len() > 0 {
        let p = codes.drop_last();
        let last = codes.last();
        assert(sorted_codes(p)) by {
            assert forall|i: int, j: int| 0 <= i < j < p.len() implies code_lt(#[trigger] p[i], #[trigger] p[j]) by {
                assert(p[i] == codes[i] && p[j] == codes[j]);
            }
        }
        lemma_type_list_ascending(p);
        let r = type_list(p);
        if p.len() > 0 {
            assert(code_lt(codes[codes.len() - 2], codes[codes.len() - 1]));
            assert(p.last() == codes[codes.len() - 2]);
        }
        if !(r.len() > 0 && r.last() == last.ev_type) {
            let r2 = r.push(last.ev_type);
            assert forall|i: int, j: int| 0 <= i < j < r2.len() implies (#[trigger] r2[i]).value < (#[trigger] r2[j]).value by {
                if j == r2.len() - 1 {
                    assert(r2[i] == r[i]);
                    assert(r[i].value <= p.last().ev_type.value);
                    assert(r.last() == p.last().ev_type);
                    assert(r.last().value != last.ev_type.value);
                } else {
                    assert(r2[i] == r[i] && r2[j] == r[j]);
                }
            }
            assert forall|i: int| 0 <= i < r2.len() implies (#[trigger] r2[i]).value <= last.ev_type.value by {
                if i < r.len() {
                    assert(r2[i] == r[i]);
                }
            }
        }
    }
}

/// A type appears in the type list of codes exactly when one of the codes is of that type.
proof fn lemma_type_in_list(codes: Seq<EventCode>, t: EventType)
    ensures
        type_list(codes).contains(t) <==> exists|i: int| 0 <= i < codes.len() && (#[trigger] codes[i]).ev_type == t,
{
    lemma_type_list_members(codes);
    if type_list(codes).contains(t) {
        assert(types_of(codes).contains(t));
        let i = choose|i: int| 0 <= i < types_of(codes).len() && types_of(codes)[i] == t;
        assert(codes[i].ev_type == t);
    }
    if exists|i: int| 0 <= i < codes.len() && (#[trigger] codes[i]).ev_type == t {
        let i = choose|i: int| 0 <= i < codes.len() && (#[trigger] codes[i]).ev_type == t;
        assert(types_of(codes)[i] == t);
    }
}

/// Capabilities that can be read back from a file: their types are known, and no code lies
/// beyond the highest of its type.
pub open spec fn codes_valid(caps: Capabilities) -> bool {
    forall|c: EventCode| #[trigger] caps.has_code(c) ==> c.ev_type.value <= EV_MAX && c.code <= max_code(c.ev_type.value)
}

/// The view of the file that writing capabilities makes.
pub open spec fn stored_view(caps: Capabilities) -> DecodedView {
    let codes = caps.code_seq();
    let types = type_list(codes);
    let abs_cs = codes_of_type(codes, abs_type());
    DecodedView {
        blocks: stored_blocks(types, codes),
        abs_codes: if types.contains(abs_type()) { code_values(abs_cs) } else { Seq::empty() },
        axes: if types.contains(abs_type()) {
            abs_cs.map_values(|c: EventCode| stored_axis(caps.axis(c).unwrap()))
        } else {
            Seq::empty()
        },
        rep: if types.contains(rep_type()) {
            Some(match caps.rep_spec() {
                Some(r) => r,
                None => RepeatInfo { delay: 250, period: 33 },
            })
        } else {
            None
        },
    }
}

proof fn lemma_blocks_readable(caps: Capabilities)
    requires
        caps.well_formed(),
        encodable(caps),
        codes_valid(caps),
    ensures
        blocks_readable(type_list(caps.code_seq()), caps.code_seq()),
{
    let codes = caps.code_seq();
    let types = type_list(codes);
    caps.lemma_well_formed();
    lemma_type_list_ascending(codes);
    assert forall|i: int| 0 <= i < types.len() implies (#[trigger] types[i]).value <= EV_MAX by {
        lemma_type_in_list(codes, types[i]);
        assert(types.contains(types[i]));
        let k = choose|k: int| 0 <= k < codes.len() && (#[trigger] codes[k]).ev_type == types[i];
        assert(caps.has_code(codes[k]));
    }
    assert forall|i: int, k: int| 0 <= i < types.len() && 0 <= k < codes_of_type(codes, types[i]).len()
        implies (#[trigger] codes_of_type(codes, #[trigger] types[i])[k]).code <= max_code(types[i].value) by {
        let c = codes_of_type(codes, types[i])[k];
        lemma_codes_of_type_members(codes, types[i]);
        assert(codes_of_type(codes, types[i]).contains(c));
        assert(caps.has_code(c));
    }
}

/// Which block a type has: its codes, if the type is among those written.
proof fn lemma_block_codes_of(types: Seq<EventType>, codes: Seq<EventCode>, t: EventType)
    requires
        forall|i: int, j: int| 0 <= i < j < types.len() ==> (#[trigger] types[i]).value != (#[trigger] types[j]).value,
    ensures
        block_codes(stored_blocks(types, codes), t.value)
            == (if types.contains(t) { Some(code_values(codes_of_type(codes, t))) } else { None }),
{
    let blocks = stored_blocks(types, codes);
    if types.contains(t) {
        let i = choose|i: int| 0 <= i < types.len() && types[i] == t;
        assert(blocks[i].0 == t.value);
        let k = choose|k: int| 0 <= k < blocks.len() && (#[trigger] blocks[k]).0 == t.value;
        if k != i {
            if k < i {
                assert(types[k].value != types[i].value);
            } else {
                assert(types[i].value != types[k].value);
            }
        }
    } else {
        if exists|k: int| 0 <= k < blocks.len() && (#[trigger] blocks[k]).0 == t.value {
            let k = choose|k: int| 0 <= k < blocks.len() && (#[trigger] blocks[k]).0 == t.value;
            assert(types[k].value == t.value);
            assert(types[k] == t);
        }
    }
}

/// The parts of the body of the file for capabilities.
pub open spec fn rep_written(caps: Capabilities) -> RepeatInfo {
    match caps.rep_spec() {
        Some(r) => r,
        None => RepeatInfo { delay: 250, period: 33 },
    }
}

pub open spec fn part_count(caps: Capabilities) -> Seq<u8> {
    u16_bytes(type_list(caps.code_seq()).len() as u16)
}

pub open spec fn part_blocks(caps: Capabilities) -> Seq<u8> {
    enc_blocks(type_list(caps.code_seq()), caps.code_seq())
}

pub open spec fn part_abs(caps: Capabilities) -> Seq<u8> {
    if type_list(caps.code_seq()).contains(abs_type()) {
        u16_bytes(EV_ABS_BLOCK_NUMBER) + enc_axes(codes_of_type(caps.code_seq(), abs_type()), caps)
    } else {
        Seq::empty()
    }
}

pub open spec fn part_rep(caps: Capabilities) -> Seq<u8> {
    if type_list(caps.code_seq()).contains(rep_type()) {
        u16_bytes(EV_REP_BLOCK_NUMBER) + i32_bytes(rep_written(caps).delay) + i32_bytes(rep_written(caps).period)
    } else {
        Seq::empty()
    }
}

pub open spec fn pos_abs(caps: Capabilities) -> int {
    14 + part_blocks(caps).len() as int
}

pub open spec fn pos_rep(caps: Capabilities) -> int {
    pos_abs(caps) + part_abs(caps).len() as int
}

pub open spec fn pos_final(caps: Capabilities) -> int {
    pos_rep(caps) + part_rep(caps).len() as int
}

#[verifier::spinoff_prover]
#[verifier::rlimit(40)]
proof fn lemma_parts_at(caps: Capabilities)
    requires
        spec_encode(caps) is Some,
    ensures
        ({
            let file = spec_encode(caps).unwrap();
            &&& file.len() == 12 + spec_encode_body(caps).len()
            &&& file.take(8) == magic()
            &&& u32_at(file, 8) == file.len()
            &&& bytes_at(file, 12, part_count(caps))
            &&& bytes_at(file, 14, part_blocks(caps))
            &&& bytes_at(file, pos_abs(caps), part_abs(caps))
            &&& bytes_at(file, pos_rep(caps), part_rep(caps))
            &&& bytes_at(file, pos_final(caps), u16_bytes(FINAL_BLOCK_NUMBER))
        }),
{
    let body = spec_encode_body(caps);
    let len = (12 + body.len()) as u32;
    let file = spec_encode(caps).unwrap();
    let u = part_count(caps);
    let b = part_blocks(caps);
    let a = part_abs(caps);
    let r = part_rep(caps);
    let f = u16_bytes(FINAL_BLOCK_NUMBER);
    assert(body == (((u + b) + a) + r) + f);
    assert(file == (magic() + u32_bytes(len)) + body);
    assert(bytes_at(file, 0, file)) by {
        assert(file.subrange(0, file.len() as int) =~= file);
    }
    lemma_bytes_at_split(file, 0, magic() + u32_bytes(len), body);
    lemma_bytes_at_split(file, 0, magic(), u32_bytes(len));
    assert(file.take(8) =~= magic()) by {
        assert forall|i: int| 0 <= i < 8 implies file.take(8)[i] == magic()[i] by {
            lemma_bytes_at_index(file, 0, magic(), i);
        }
    }
    lemma_u32_at(file, 8, len);
    lemma_bytes_at_split(file, 12, (((u + b) + a) + r), f);
    lemma_bytes_at_split(file, 12, ((u + b) + a), r);
    lemma_bytes_at_split(file, 12, (u + b), a);
    lemma_bytes_at_split(file, 12, u, b);
}

proof fn lemma_abs_part(caps: Capabilities, file: Seq<u8>)
    requires
        caps.well_formed(),
        encodable(caps),
        type_list(caps.code_seq()).contains(abs_type()),
        bytes_at(file, pos_abs(caps), part_abs(caps)),
    ensures
        read_u16(file, pos_abs(caps)) == Some(EV_ABS_BLOCK_NUMBER),
        dec_axes(file, pos_abs(caps) + 2, codes_of_type(caps.code_seq(), abs_type()).len())
            == Some(codes_of_type(caps.code_seq(), abs_type()).map_values(|c: EventCode| stored_axis(caps.axis(c).unwrap()))),
        part_abs(caps).len() == 2 + 20 * codes_of_type(caps.code_seq(), abs_type()).len(),
{
    let abs_cs = codes_of_type(caps.code_seq(), abs_type());
    let p1 = pos_abs(caps);
    lemma_bytes_at_split(file, p1, u16_bytes(EV_ABS_BLOCK_NUMBER), enc_axes(abs_cs, caps));
    lemma_read_u16_at(file, p1, EV_ABS_BLOCK_NUMBER);
    assert forall|i: int| 0 <= i < abs_cs.len() implies (#[trigger] caps.axis(abs_cs[i])) is Some
        && caps.axis(abs_cs[i]).unwrap().min_value <= caps.axis(abs_cs[i]).unwrap().max_value by {
        assert(abs_cs.contains(abs_cs[i]));
    }
    lemma_dec_axes_of(file, p1 + 2, abs_cs, caps);
}

proof fn lemma_rep_part(caps: Capabilities, file: Seq<u8>)
    requires
        type_list(caps.code_seq()).contains(rep_type()),
        bytes_at(file, pos_rep(caps), part_rep(caps)),
    ensures
        read_u16(file, pos_rep(caps)) == Some(EV_REP_BLOCK_NUMBER),
        read_i32(file, pos_rep(caps) + 2) == Some(rep_written(caps).delay),
        read_i32(file, pos_rep(caps) + 6) == Some(rep_written(caps).period),
        part_rep(caps).len() == 10,
{
    let rep = rep_written(caps);
    let p2 = pos_rep(caps);
    let r0 = u16_bytes(EV_REP_BLOCK_NUMBER);
    let r1 = i32_bytes(rep.delay);
    let r2 = i32_bytes(rep.period);
    lemma_bytes_at_split(file, p2, r0 + r1, r2);
    lemma_bytes_at_split(file, p2, r0, r1);
    lemma_read_u16_at(file, p2, EV_REP_BLOCK_NUMBER);
    lemma_i32_at(file, p2 + 2, rep.delay);
    lemma_i32_at(file, p2 + 6, rep.period);
}

/// A file written for capabilities reads back as the view of what was written.
#[verifier::spinoff_prover]
#[verifier::rlimit(40)]
pub proof fn lemma_decode_of_encode(caps: Capabilities)
    requires
        caps.well_formed(),
        spec_encode(caps) is Some,
        codes_valid(caps),
    ensures
        spec_decode(spec_encode(caps).unwrap()) == Some(stored_view(caps)),
{
    let codes = caps.code_seq();
    let types = type_list(codes);
    let file = spec_encode(caps).unwrap();
    lemma_parts_at(caps);
    lemma_read_u16_at(file, 12, types.len() as u16);
    assert((types.len() as u16) as nat == types.len());
    lemma_blocks_readable(caps);
    lemma_dec_blocks_of(file, 14, types, codes);
    lemma_block_codes_of(types, codes, abs_type());
    lemma_block_codes_of(types, codes, rep_type());
    if types.contains(abs_type()) {
        lemma_abs_part(caps, file);
    }
    if types.contains(rep_type()) {
        lemma_rep_part(caps, file);
    }
    lemma_read_u16_at(file, pos_final(caps), FINAL_BLOCK_NUMBER);
    assert(abs_type().value == EV_ABS);
    assert(rep_type().value == EV_REP);
}

proof fn lemma_decoded_axis_of(cs: Seq<EventCode>, axes: Seq<AbsInfo>, caps: Capabilities, c: EventCode)
    requires
        axes.len() >= cs.len(),
        forall|i: int| 0 <= i < cs.len() ==> axes[i] == stored_axis(caps.axis(#[trigger] cs[i]).unwrap()),
        forall|i: int| 0 <= i < cs.len() ==> (#[trigger] cs[i]).ev_type.value == EV_ABS,
    ensures
        decoded_axis(code_values(cs), axes, c) == (if cs.contains(c) { Some(stored_axis(caps.axis(c).unwrap())) } else { None }),
    decreases cs.len(),
{
    let list = code_values(cs);
    if cs.len() == 0 {
    } else if c.ev_type.value != EV_ABS {
        if cs.contains(c) {
            let i = choose|i: int| 0 <= i < cs.len() && cs[i] == c;
            assert(cs[i].ev_type.value == EV_ABS);
        }
    } else {
        let p = cs.drop_last();
        assert(list.last() == cs.last().code);
        assert(cs.last() == cs[cs.len() - 1]);
        if list.last() == c.code {
            assert(cs.last().ev_type.value == EV_ABS);
            assert(cs.last() == c);
            assert(cs.contains(c));
        } else {
            assert(list.drop_last() =~= code_values(p));
            assert forall|i: int| 0 <= i < p.len() implies axes[i] == stored_axis(caps.axis(#[trigger] p[i]).unwrap()) by {
                assert(p[i] == cs[i]);
            }
            assert forall|i: int| 0 <= i < p.len() implies (#[trigger] p[i]).ev_type.value == EV_ABS by {
                assert(p[i] == cs[i]);
            }
            lemma_decoded_axis_of(p, axes, caps, c);
            if cs.contains(c) {
                let i = choose|i: int| 0 <= i < cs.len() && cs[i] == c;
                assert(i != cs.len() - 1);
                assert(p[i] == c);
            }
            if p.contains(c) {
                let i = choose|i: int| 0 <= i < p.len() && p[i] == c;
                assert(cs[i] == c);
            }
        }
    }
}

/// Whether capabilities hold axes only for codes of type EV_ABS that they have, as those of a
/// device do.
pub open spec fn axes_on_own_codes(caps: Capabilities) -> bool {
    forall|c: EventCode| #[trigger] caps.axis(c) is Some ==> caps.has_code(c) && c.ev_type.value == EV_ABS
}

/// Whether capabilities have a code of a type.
pub open spec fn has_type(caps: Capabilities, t: u16) -> bool {
    exists|c: EventCode| #[trigger] caps.has_code(c) && c.ev_type.value == t
}

/// Reading a file gives back what writing it put in: the file that `encode` writes for
/// capabilities is read by `decode` without error, and what it gives back has the same codes, and
/// the same axes up to their current values, which become the middles of their ranges. The repeat
/// information is kept if the capabilities have codes of type EV_REP, and takes the kernel's
/// default if they had none to write.
pub proof fn lemma_read_gives_back_write(caps: Capabilities, read: Capabilities)
    requires
        caps.well_formed(),
        spec_encode(caps) is Some,
        codes_valid(caps),
        axes_on_own_codes(caps),
    ensures
        spec_decode(spec_encode(caps).unwrap()) is Some,
        holds_decoded(read, spec_decode(spec_encode(caps).unwrap()).unwrap()) ==> {
            &&& forall|c: EventCode| #[trigger] read.has_code(c) == caps.has_code(c)
            &&& forall|c: EventCode| #[trigger] read.axis(c)
                == (if caps.axis(c) is Some { Some(stored_axis(caps.axis(c).unwrap())) } else { None })
            &&& compatible_caps(caps, read)
            &&& compatible_caps(read, caps)
            &&& read.rep_spec() == (if has_type(caps, EV_REP) { Some(rep_written(caps)) } else { None })
        },
{
    lemma_decode_of_encode(caps);
    let view = stored_view(caps);
    let codes = caps.code_seq();
    let types = type_list(codes);
    let abs_cs = codes_of_type(codes, abs_type());
    lemma_codes_of_type_members(codes, abs_type());
    lemma_type_in_list(codes, abs_type());
    lemma_type_in_list(codes, rep_type());
    if has_type(caps, EV_REP) {
        let c = choose|c: EventCode| #[trigger] caps.has_code(c) && c.ev_type.value == EV_REP;
        let i = choose|i: int| 0 <= i < codes.len() && codes[i] == c;
        assert(codes[i].ev_type == rep_type());
    }
    if types.contains(rep_type()) {
        let i = choose|i: int| 0 <= i < codes.len() && (#[trigger] codes[i]).ev_type == rep_type();
        assert(caps.has_code(codes[i]));
    }
    if holds_decoded(read, view) {
        assert forall|c: EventCode| #[trigger] read.has_code(c) == caps.has_code(c) by {
            lemma_codes_of_type_members(codes, c.ev_type);
            lemma_type_in_list(codes, c.ev_type);
            if caps.has_code(c) {
                let i = choose|i: int| 0 <= i < codes.len() && codes[i] == c;
                assert(types.contains(c.ev_type));
                let b = choose|b: int| 0 <= b < types.len() && types[b] == c.ev_type;
                let cs = codes_of_type(codes, c.ev_type);
                assert(cs.contains(c));
                let j = choose|j: int| 0 <= j < cs.len() && cs[j] == c;
                assert(view.blocks[b].1[j] == c.code);
                assert(view.blocks[b].0 == c.ev_type.value);
            }
            if read.has_code(c) {
                let (b, j) = choose|b: int, j: int| 0 <= b < view.blocks.len() && 0 <= j < view.blocks[b].1.len()
                    && view.blocks[b].0 == c.ev_type.value && (#[trigger] view.blocks[b].1[j]) == c.code;
                let t = types[b];
                let cs = codes_of_type(codes, t);
                lemma_codes_of_type_members(codes, t);
                let cc = cs[j];
                assert(cs.contains(cc));
                assert(cc.ev_type == t);
                assert(cc.code == c.code);
                assert(t.value == c.ev_type.value);
                assert(cc == c);
            }
        }
        assert forall|c: EventCode| #[trigger] read.axis(c)
            == (if caps.axis(c) is Some { Some(stored_axis(caps.axis(c).unwrap())) } else { None }) by {
            if types.contains(abs_type()) {
                assert forall|i: int| 0 <= i < abs_cs.len() implies (#[trigger] abs_cs[i]).ev_type.value == EV_ABS by {
                    assert(abs_cs.contains(abs_cs[i]));
                }
                lemma_decoded_axis_of(abs_cs, view.axes, caps, c);
                if abs_cs.contains(c) {
                    assert(caps.has_code(c));
                }
                if caps.axis(c) is Some {
                    assert(caps.has_code(c) && c.ev_type == abs_type());
                    assert(abs_cs.contains(c));
                }
            } else {
                if caps.axis(c) is Some {
                    assert(caps.has_code(c));
                    let i = choose|i: int| 0 <= i < codes.len() && codes[i] == c;
                    assert(codes[i].ev_type == abs_type());
                }
            }
        }
        assert forall|c: EventCode| #[trigger] caps.axis(c) is Some implies read.axis(c) is Some
            && equivalent_axes(caps.axis(c).unwrap(), read.axis(c).unwrap()) by {
            assert(read.axis(c) == Some(stored_axis(caps.axis(c).unwrap())));
        }
        assert forall|c: EventCode| #[trigger] read.axis(c) is Some implies caps.axis(c) is Some
            && equivalent_axes(read.axis(c).unwrap(), caps.axis(c).unwrap()) by {
            assert(read.axis(c) == (if caps.axis(c) is Some { Some(stored_axis(caps.axis(c).unwrap())) } else { None }));
        }
    }
}

} // verus!
