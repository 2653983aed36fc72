//! The file format in which the capabilities of a device are kept.
//!
//! 1. The magic number: the eight bytes 45 56 53 56 41 e7 75 01, of which the last is the version.
//! 2. The length of the whole file, as an u32.
//! 3. The number of event types, as an u16. All integers are little endian.
//! 4. For each type, in ascending order: the type, the number of its codes and then the codes
//!    in ascending order, each as an u16.
//! 5. Special blocks, each starting with its magic u16, in ascending order of that number: for
//!    EV_ABS (magic 1), five i32 for each code of that type in the order of its block: minimum,
//!    maximum, flat, fuzz and resolution; for EV_REP (magic 2), the i32s delay and period. The
//!    last block has the magic ff ff and no body.

use vstd::prelude::*;

use crate::capability::{
    codes_of_type, type_list, AbsInfo, AbsMeta, Capabilities, RepeatInfo,
};
use crate::ecodes::event_type_get_max;
use crate::ecodes_table::spec_type_max;
use crate::error::{Context, InternalError, RuntimeError};
use crate::event::{EventCode, EventType, EV_ABS, EV_MAX, EV_REP};
use crate::text::{chars_of, join_strs};

verus! {

pub const EV_ABS_BLOCK_NUMBER: u16 = 0x0001;
pub const EV_REP_BLOCK_NUMBER: u16 = 0x0002;
pub const FINAL_BLOCK_NUMBER: u16 = 0xffff;

/// The magic number that every file starts with.
pub open spec fn magic() -> Seq<u8> {
    seq![0x45u8, 0x56u8, 0x53u8, 0x56u8, 0x41u8, 0xe7u8, 0x75u8, 0x01u8]
}

/// Tells you that a file could not be read because its format was different from what was expected.
#[derive(Debug)]
pub struct InvalidFormatError;

pub open spec fn u16_bytes(v: u16) -> Seq<u8> {
    seq![(v % 256) as u8, (v / 256) as u8]
}

pub open spec fn u32_bytes(v: u32) -> Seq<u8> {
    seq![(v % 256) as u8, ((v / 256) % 256) as u8, ((v / 65536) % 256) as u8, (v / 16777216) as u8]
}

pub open spec fn i32_bytes(v: i32) -> Seq<u8> {
    u32_bytes(v as u32)
}

/// The codes, each as an u16.
pub open spec fn enc_codes(codes: Seq<EventCode>) -> Seq<u8>
    decreases codes.len(),
{
    if codes.len() == 0 {
        Seq::empty()
    } else {
        enc_codes(codes.drop_last()) + u16_bytes(codes.last().code)
    }
}

/// The block of one type: the type, the number of codes and the codes.
pub open spec fn enc_block(t: EventType, codes: Seq<EventCode>) -> Seq<u8> {
    u16_bytes(t.value) + u16_bytes(codes.len() as u16) + enc_codes(codes)
}

/// The blocks of the types, one after another.
pub open spec fn enc_blocks(types: Seq<EventType>, codes: Seq<EventCode>) -> Seq<u8>
    decreases types.len(),
{
    if types.len() == 0 {
        Seq::empty()
    } else {
        enc_blocks(types.drop_last(), codes) + enc_block(types.last(), codes_of_type(codes, types.last()))
    }
}

pub open spec fn enc_axis(info: AbsInfo) -> Seq<u8> {
    i32_bytes(info.min_value) + i32_bytes(info.max_value) + i32_bytes(info.meta.flat) + i32_bytes(info.meta.fuzz)
        + i32_bytes(info.meta.resolution)
}

/// The axes of the codes, one after another.
pub open spec fn enc_axes(codes: Seq<EventCode>, caps: Capabilities) -> Seq<u8>
    decreases codes.len(),
{
    if codes.len() == 0 {
        Seq::empty()
    } else {
        enc_axes(codes.drop_last(), caps) + enc_axis(caps.axis(codes.last()).unwrap())
    }
}

pub open spec fn abs_type() -> EventType {
    EventType { value: EV_ABS }
}

pub open spec fn rep_type() -> EventType {
    EventType { value: EV_REP }
}

/// Whether capabilities can be written: the counts fit an u16, and each code of type EV_ABS
/// has an axis whose minimum is not above its maximum.
pub open spec fn encodable(caps: Capabilities) -> bool {
    let types = type_list(caps.code_seq());
    &&& types.len() <= 0xffff
    &&& forall|i: int| 0 <= i < types.len() ==> codes_of_type(caps.code_seq(), #[trigger] types[i]).len() <= 0xffff
    &&& forall|c: EventCode| #[trigger] codes_of_type(caps.code_seq(), abs_type()).contains(c)
        ==> caps.axis(c) is Some && caps.axis(c).unwrap().min_value <= caps.axis(c).unwrap().max_value
}

/// The file without its magic number and length.
pub open spec fn spec_encode_body(caps: Capabilities) -> Seq<u8> {
    let codes = caps.code_seq();
    let types = type_list(codes);
    let rep = match caps.rep_spec() {
        Some(r) => r,
        None => RepeatInfo { delay: 250, period: 33 },
    };
    u16_bytes(types.len() as u16) + enc_blocks(types, codes)
        + (if types.contains(abs_type()) {
            u16_bytes(EV_ABS_BLOCK_NUMBER) + enc_axes(codes_of_type(codes, abs_type()), caps)
        } else {
            Seq::empty()
        })
        + (if types.contains(rep_type()) {
            u16_bytes(EV_REP_BLOCK_NUMBER) + i32_bytes(rep.delay) + i32_bytes(rep.period)
        } else {
            Seq::empty()
        })
        + u16_bytes(FINAL_BLOCK_NUMBER)
}

/// The file that holds the capabilities, or None if they cannot be written.
pub open spec fn spec_encode(caps: Capabilities) -> Option<Seq<u8>> {
    if !encodable(caps) || 12 + spec_encode_body(caps).len() > u32::MAX {
        None
    } else {
        Some(magic() + u32_bytes((12 + spec_encode_body(caps).len()) as u32) + spec_encode_body(caps))
    }
}

fn push_u16(buffer: &mut Vec<u8>, value: u16)
    ensures
        final(buffer)@ == old(buffer)@ + u16_bytes(value),
{
    buffer.push((value % 256) as u8);
    buffer.push((value / 256) as u8);
    proof {
        assert(buffer@ =~= old(buffer)@ + u16_bytes(value));
    }
}

fn push_u32(buffer: &mut Vec<u8>, value: u32)
    ensures
        final(buffer)@ == old(buffer)@ + u32_bytes(value),
{
    buffer.push((value % 256) as u8);
    buffer.push(((value / 256) % 256) as u8);
    buffer.push(((value / 65536) % 256) as u8);
    buffer.push((value / 16777216) as u8);
    proof {
        assert(buffer@ =~= old(buffer)@ + u32_bytes(value));
    }
}

fn push_i32(buffer: &mut Vec<u8>, value: i32)
    ensures
        final(buffer)@ == old(buffer)@ + i32_bytes(value),
{
    push_u32(buffer, value as u32);
}

/// Returns all event codes of a type within the capabilities, in ascending order.
fn sorted_event_codes_for_type(caps: &Capabilities, ev_type: EventType) -> (res: Vec<EventCode>)
    requires
        caps.well_formed(),
    ensures
        res@ == codes_of_type(caps.code_seq(), ev_type),
{
    let codes = caps.codes();
    let mut res: Vec<EventCode> = Vec::new();
    let mut i: usize = 0;
    while i < codes.len()
        invariant
            i <= codes@.len(),
            codes@ == caps.code_seq(),
            res@ == codes_of_type(codes@.take(i as int), ev_type),
        decreases codes@.len() - i,
    {
        proof {
            assert(codes@.take(i + 1).drop_last() == codes@.take(i as int));
            assert(codes@.take(i + 1).last() == codes@[i as int]);
        }
        if codes[i].ev_type.value == ev_type.value {
            res.push(codes[i]);
        }
        i += 1;
    }
    proof {
        assert(codes@.take(codes@.len() as int) == codes@);
    }
    res
}

fn internal_error(message: &str) -> (res: RuntimeError)
    ensures
        res matches RuntimeError::InternalError(error) && error.message_spec() == message@
            && error.context_spec() == Seq::<Seq<char>>::empty(),
{
    let text = join_strs(&[message]);
    proof {
        reveal_with_fuel(crate::text::flatten_strs, 2);
        assert(text@ =~= message@);
    }
    RuntimeError::InternalError(InternalError::new(text))
}

fn encode_event_block(buffer: &mut Vec<u8>, caps: &Capabilities, ev_type: EventType) -> (res: Result<(), RuntimeError>)
    requires
        caps.well_formed(),
    ensures
        match res {
            Ok(()) => codes_of_type(caps.code_seq(), ev_type).len() <= 0xffff
                && final(buffer)@ == old(buffer)@ + enc_block(ev_type, codes_of_type(caps.code_seq(), ev_type)),
            Err(_) => codes_of_type(caps.code_seq(), ev_type).len() > 0xffff,
        },
{
    let event_codes = sorted_event_codes_for_type(caps, ev_type);
    if event_codes.len() > 0xffff {
        return Err(internal_error("Too many event codes of one type to fit in an u16."));
    }
    push_u16(buffer, ev_type.value);
    push_u16(buffer, event_codes.len() as u16);
    let ghost start = buffer@;
    let mut i: usize = 0;
    while i < event_codes.len()
        invariant
            i <= event_codes@.len(),
            buffer@ == start + enc_codes(event_codes@.take(i as int)),
        decreases event_codes@.len() - i,
    {
        proof {
            assert(event_codes@.take(i + 1).drop_last() == event_codes@.take(i as int));
            assert(event_codes@.take(i + 1).last() == event_codes@[i as int]);
        }
        push_u16(buffer, event_codes[i].code);
        i += 1;
        proof {
            assert(buffer@ =~= start + enc_codes(event_codes@.take(i as int)));
        }
    }
    proof {
        assert(event_codes@.take(event_codes@.len() as int) == event_codes@);
        assert(buffer@ =~= old(buffer)@ + enc_block(ev_type, codes_of_type(caps.code_seq(), ev_type)));
    }
    Ok(())
}

fn encode_special_abs_block(buffer: &mut Vec<u8>, caps: &Capabilities) -> (res: Result<(), RuntimeError>)
    requires
        caps.well_formed(),
    ensures
        match res {
            Ok(()) => {
                &&& forall|c: EventCode| #[trigger] codes_of_type(caps.code_seq(), abs_type()).contains(c)
                    ==> caps.axis(c) is Some && caps.axis(c).unwrap().min_value <= caps.axis(c).unwrap().max_value
                &&& final(buffer)@ == old(buffer)@ + u16_bytes(EV_ABS_BLOCK_NUMBER)
                    + enc_axes(codes_of_type(caps.code_seq(), abs_type()), *caps)
            },
            Err(_) => !(forall|c: EventCode| #[trigger] codes_of_type(caps.code_seq(), abs_type()).contains(c)
                ==> caps.axis(c) is Some && caps.axis(c).unwrap().min_value <= caps.axis(c).unwrap().max_value),
        },
{
    push_u16(buffer, EV_ABS_BLOCK_NUMBER);
    let ghost start = buffer@;
    let abs_codes = sorted_event_codes_for_type(caps, EventType::abs());
    let mut i: usize = 0;
    while i < abs_codes.len()
        invariant
            i <= abs_codes@.len(),
            caps.well_formed(),
            abs_codes@ == codes_of_type(caps.code_seq(), abs_type()),
            buffer@ == start + enc_axes(abs_codes@.take(i as int), *caps),
            forall|k: int| 0 <= k < i ==> caps.axis(#[trigger] abs_codes@[k]) is Some
                && caps.axis(abs_codes@[k]).unwrap().min_value <= caps.axis(abs_codes@[k]).unwrap().max_value,
        decreases abs_codes@.len() - i,
    {
        let abs_code = abs_codes[i];
        proof {
            assert(abs_codes@.take(i + 1).drop_last() == abs_codes@.take(i as int));
            assert(abs_codes@.take(i + 1).last() == abs_code);
            assert(abs_codes@.contains(abs_code));
        }
        let info = match caps.get_axis(abs_code) {
            Some(info) => info,
            None => {
                return Err(internal_error(
                    "The capabilities contain an abs-type event, but do not contain data about its axes. This is a bug.",
                ));
            },
        };
        if info.min_value > info.max_value {
            return Err(internal_error("An absolute axis has a minimum value larger than its maximum value."));
        }
        push_i32(buffer, info.min_value);
        push_i32(buffer, info.max_value);
        push_i32(buffer, info.meta.flat);
        push_i32(buffer, info.meta.fuzz);
        push_i32(buffer, info.meta.resolution);
        i += 1;
        proof {
            assert(buffer@ =~= start + enc_axes(abs_codes@.take(i as int), *caps));
        }
    }
    proof {
        assert(abs_codes@.take(abs_codes@.len() as int) == abs_codes@);
        assert forall|c: EventCode| #[trigger] codes_of_type(caps.code_seq(), abs_type()).contains(c)
            implies caps.axis(c) is Some && caps.axis(c).unwrap().min_value <= caps.axis(c).unwrap().max_value by {
            let k = choose|k: int| 0 <= k < abs_codes@.len() && abs_codes@[k] == c;
        }
    }
    Ok(())
}

fn contains_type(types: &Vec<EventType>, t: EventType) -> (res: bool)
    ensures
        res == types@.contains(t),
{
    let mut i: usize = 0;
    while i < types.len()
        invariant
            i <= types@.len(),
            forall|k: int| 0 <= k < i ==> types@[k] != t,
        decreases types@.len() - i,
    {
        if types[i].value == t.value {
            proof {
                assert(types@[i as int] == t);
            }
            return true;
        }
        i += 1;
    }
    false
}

/// The file without its magic number and length.
fn encode_body(caps: &Capabilities) -> (res: Result<Vec<u8>, RuntimeError>)
    requires
        caps.well_formed(),
    ensures
        match res {
            Ok(body) => encodable(*caps) && body@ == spec_encode_body(*caps),
            Err(_) => !encodable(*caps),
        },
{
    let mut body: Vec<u8> = Vec::new();
    let event_types = caps.ev_types();
    let ghost types = type_list(caps.code_seq());
    if event_types.len() > 0xffff {
        return Err(internal_error("Too many event types to fit in an u16."));
    }
    push_u16(&mut body, event_types.len() as u16);
    let ghost start = body@;
    let mut i: usize = 0;
    while i < event_types.len()
        invariant
            i <= event_types@.len(),
            event_types@ == types,
            types == type_list(caps.code_seq()),
            caps.well_formed(),
            body@ == start + enc_blocks(types.take(i as int), caps.code_seq()),
            forall|k: int| 0 <= k < i ==> codes_of_type(caps.code_seq(), #[trigger] types[k]).len() <= 0xffff,
        decreases event_types@.len() - i,
    {
        proof {
            assert(types.take(i + 1).drop_last() == types.take(i as int));
            assert(types.take(i + 1).last() == types[i as int]);
        }
        match encode_event_block(&mut body, caps, event_types[i]) {
            Ok(()) => {},
            Err(err) => {
                return Err(err);
            },
        }
        i += 1;
        proof {
            assert(body@ =~= start + enc_blocks(types.take(i as int), caps.code_seq()));
        }
    }
    proof {
        assert(types.take(types.len() as int) == types);
    }
    let ghost after_blocks = body@;
    let has_abs = contains_type(&event_types, EventType::abs());
    if has_abs {
        match encode_special_abs_block(&mut body, caps) {
            Ok(()) => {},
            Err(err) => {
                return Err(err);
            },
        }
    }
    let ghost after_abs = body@;
    if contains_type(&event_types, EventType::rep()) {
        push_u16(&mut body, EV_REP_BLOCK_NUMBER);
        let rep_info = match caps.rep_info() {
            Some(info) => info,
            None => RepeatInfo::kernel_default(),
        };
        push_i32(&mut body, rep_info.delay);
        push_i32(&mut body, rep_info.period);
    }
    let ghost after_rep = body@;
    push_u16(&mut body, FINAL_BLOCK_NUMBER);
    proof {
        if !has_abs {
            assert forall|c: EventCode| #[trigger] codes_of_type(caps.code_seq(), abs_type()).contains(c)
                implies caps.axis(c) is Some && caps.axis(c).unwrap().min_value <= caps.axis(c).unwrap().max_value by {
                lemma_codes_of_type_members(caps.code_seq(), abs_type());
                lemma_type_list_members(caps.code_seq());
                let k = choose|k: int| 0 <= k < caps.code_seq().len() && caps.code_seq()[k] == c;
                assert(types_of(caps.code_seq())[k] == abs_type());
            }
        }
        assert(body@ =~= spec_encode_body(*caps));
    }
    Ok(body)
}

proof fn lemma_contains_push<A>(s: Seq<A>, x: A)
    ensures
        forall|y: A| #[trigger] s.push(x).contains(y) <==> (s.contains(y) || y == x),
{
    assert forall|y: A| #[trigger] s.push(x).contains(y) <==> (s.contains(y) || y == x) by {
        if s.push(x).contains(y) {
            let k = choose|k: int| 0 <= k < s.push(x).len() && s.push(x)[k] == y;
            if k < s.len() {
                assert(s[k] == y);
            }
        }
        if s.contains(y) {
            let k = choose|k: int| 0 <= k < s.len() && s[k] == y;
            assert(s.push(x)[k] == y);
        }
        if y == x {
            assert(s.push(x)[s.len() as int] == y);
        }
    }
}

pub proof fn lemma_codes_of_type_members(codes: Seq<EventCode>, t: EventType)
    ensures
        forall|c: EventCode| #[trigger] codes_of_type(codes, t).contains(c) <==> codes.contains(c) && c.ev_type == t,
    decreases codes.len(),
{
    if codes.len() == 0 {
        assert forall|c: EventCode| #[trigger] codes_of_type(codes, t).contains(c) <==> codes.contains(c) && c.ev_type == t by {
            if codes.contains(c) {
                let k = choose|k: int| 0 <= k < codes.len() && codes[k] == c;
            }
        }
    } else {
        let init = codes.drop_last();
        let last = codes.last();
        lemma_codes_of_type_members(init, t);
        assert(codes == init.push(last));
        lemma_contains_push(init, last);
        lemma_contains_push(codes_of_type(init, t), last);
    }
}

pub open spec fn types_of(codes: Seq<EventCode>) -> Seq<EventType> {
    codes.map_values(|c: EventCode| c.ev_type)
}

pub proof fn lemma_type_list_members(codes: Seq<EventCode>)
    ensures
        forall|t: EventType| #[trigger] type_list(codes).contains(t) <==> types_of(codes).contains(t),
    decreases codes.len(),
{
    if codes.len() == 0 {
        assert forall|t: EventType| #[trigger] type_list(codes).contains(t) <==> types_of(codes).contains(t) by {
            if types_of(codes).contains(t) {
                let k = choose|k: int| 0 <= k < types_of(codes).len() && types_of(codes)[k] == t;
            }
        }
    } else {
        let init = codes.drop_last();
        let last = codes.last();
        lemma_type_list_members(init);
        assert(types_of(codes) =~= types_of(init).push(last.ev_type));
        lemma_contains_push(types_of(init), last.ev_type);
        lemma_contains_push(type_list(init), last.ev_type);
        let r = type_list(init);
        if r.len() > 0 && r.last() == last.ev_type {
            assert(r.contains(last.ev_type)) by {
                assert(r[r.len() - 1] == last.ev_type);
            }
        }
    }
}

/// Writes capabilities in the file format.
pub fn encode(caps: &Capabilities) -> (res: Result<Vec<u8>, RuntimeError>)
    requires
        caps.well_formed(),
    ensures
        match res {
            Ok(bytes) => spec_encode(*caps) == Some(bytes@),
            Err(_) => spec_encode(*caps) is None,
        },
{
    let body = encode_body(caps)?;
    let mut header: Vec<u8> = vec![0x45u8, 0x56u8, 0x53u8, 0x56u8, 0x41u8, 0xe7u8, 0x75u8, 0x01u8];
    proof {
        assert(header@ =~= magic());
    }
    if body.len() > 0xffff_ffff - 12 {
        return Err(internal_error("Total file size exceeds 4GB. Too large."));
    }
    let file_length = (12 + body.len()) as u32;
    push_u32(&mut header, file_length);
    let mut result = header;
    let mut i: usize = 0;
    let ghost start = result@;
    while i < body.len()
        invariant
            i <= body@.len(),
            result@ == start + body@.take(i as int),
        decreases body@.len() - i,
    {
        result.push(body[i]);
        i += 1;
        proof {
            assert(result@ =~= start + body@.take(i as int));
        }
    }
    proof {
        assert(body@.take(body@.len() as int) == body@);
    }
    Ok(result)
}

pub open spec fn u16_at(s: Seq<u8>, pos: int) -> u16 {
    (s[pos] as int + 256 * s[pos + 1] as int) as u16
}

pub open spec fn u32_at(s: Seq<u8>, pos: int) -> u32 {
    (s[pos] as int + 256 * s[pos + 1] as int + 65536 * s[pos + 2] as int + 16777216 * s[pos + 3] as int) as u32
}

pub open spec fn read_u16(s: Seq<u8>, pos: int) -> Option<u16> {
    if 0 <= pos && pos + 2 <= s.len() {
        Some(u16_at(s, pos))
    } else {
        None
    }
}

pub open spec fn read_i32(s: Seq<u8>, pos: int) -> Option<i32> {
    if 0 <= pos && pos + 4 <= s.len() {
        Some(u32_at(s, pos) as i32)
    } else {
        None
    }
}

/// The `n` codes from position `pos` on, each of which must not exceed `max`.
pub open spec fn dec_codes(s: Seq<u8>, pos: int, max: int, n: nat) -> Option<Seq<u16>>
    decreases n,
{
    if n == 0 {
        Some(Seq::empty())
    } else {
        match dec_codes(s, pos, max, (n - 1) as nat) {
            None => None,
            Some(codes) => match read_u16(s, pos + 2 * (n - 1)) {
                Some(c) => if c > max {
                    None
                } else {
                    Some(codes.push(c))
                },
                None => None,
            },
        }
    }
}

/// The highest code that a type may have in a file: the highest that the type has, if it has codes.
pub open spec fn max_code(t: u16) -> int {
    match spec_type_max(t) {
        Some(m) => m as int,
        None => 0xffff,
    }
}

/// A type block at `pos`: its type, its codes, and the position after it.
pub open spec fn dec_block(s: Seq<u8>, pos: int) -> Option<(u16, Seq<u16>, int)> {
    match read_u16(s, pos) {
        None => None,
        Some(t) => if t > EV_MAX {
            None
        } else {
            match read_u16(s, pos + 2) {
                None => None,
                Some(n) => match dec_codes(s, pos + 4, max_code(t), n as nat) {
                    None => None,
                    Some(codes) => Some((t, codes, pos + 4 + 2 * n)),
                },
            }
        },
    }
}

/// The `n` type blocks from `pos` on, each type at most once, and the position after them.
pub open spec fn dec_blocks(s: Seq<u8>, pos: int, n: nat) -> Option<(Seq<(u16, Seq<u16>)>, int)>
    decreases n,
{
    if n == 0 {
        Some((Seq::empty(), pos))
    } else {
        match dec_blocks(s, pos, (n - 1) as nat) {
            None => None,
            Some((blocks, p)) => match dec_block(s, p) {
                None => None,
                Some((t, codes, p2)) => if exists|k: int| 0 <= k < blocks.len() && (#[trigger] blocks[k]).0 == t {
                    None
                } else {
                    Some((blocks.push((t, codes)), p2))
                },
            },
        }
    }
}

/// The middle of a range, rounded towards zero.
pub open spec fn midpoint(min: i32, max: i32) -> i32 {
    let sum = min as int + max as int;
    (if sum >= 0 { sum / 2 } else { -((-sum) / 2) }) as i32
}

/// An axis at `pos`: its minimum, maximum, flat, fuzz and resolution; its value is the middle of
/// its range, for the file does not keep it.
pub open spec fn dec_axis(s: Seq<u8>, pos: int) -> Option<AbsInfo> {
    if 0 <= pos && pos + 20 <= s.len() {
        let min = u32_at(s, pos) as i32;
        let max = u32_at(s, pos + 4) as i32;
        if min > max {
            None
        } else {
            Some(AbsInfo {
                min_value: min,
                max_value: max,
                meta: AbsMeta {
                    flat: u32_at(s, pos + 8) as i32,
                    fuzz: u32_at(s, pos + 12) as i32,
                    resolution: u32_at(s, pos + 16) as i32,
                    value: midpoint(min, max),
                },
            })
        }
    } else {
        None
    }
}

pub open spec fn dec_axes(s: Seq<u8>, pos: int, n: nat) -> Option<Seq<AbsInfo>>
    decreases n,
{
    if n == 0 {
        Some(Seq::empty())
    } else {
        match dec_axes(s, pos, (n - 1) as nat) {
            None => None,
            Some(axes) => match dec_axis(s, pos + 20 * (n - 1)) {
                Some(a) => Some(axes.push(a)),
                None => None,
            },
        }
    }
}

/// What a file holds: the type blocks, the codes of EV_ABS with their axes, and the repeat information.
pub struct DecodedView {
    pub blocks: Seq<(u16, Seq<u16>)>,
    pub abs_codes: Seq<u16>,
    pub axes: Seq<AbsInfo>,
    pub rep: Option<RepeatInfo>,
}

/// The codes of the block of a type, if there is one.
pub open spec fn block_codes(blocks: Seq<(u16, Seq<u16>)>, t: u16) -> Option<Seq<u16>> {
    if exists|k: int| 0 <= k < blocks.len() && (#[trigger] blocks[k]).0 == t {
        Some(blocks[choose|k: int| 0 <= k < blocks.len() && (#[trigger] blocks[k]).0 == t].1)
    } else {
        None
    }
}

/// What the body of a file from `pos` on holds, or None if it is not in the format.
pub open spec fn spec_decode_body(s: Seq<u8>, pos: int) -> Option<DecodedView> {
    match read_u16(s, pos) {
        None => None,
        Some(num_types) => match dec_blocks(s, pos + 2, num_types as nat) {
            None => None,
            Some((blocks, p1)) => {
                let abs = match block_codes(blocks, EV_ABS) {
                    None => Some((Seq::<u16>::empty(), Seq::<AbsInfo>::empty(), p1)),
                    Some(abs_codes) => if read_u16(s, p1) != Some(EV_ABS_BLOCK_NUMBER) {
                        None
                    } else {
                        match dec_axes(s, p1 + 2, abs_codes.len()) {
                            None => None,
                            Some(axes) => Some((abs_codes, axes, p1 + 2 + 20 * abs_codes.len())),
                        }
                    },
                };
                match abs {
                    None => None,
                    Some((abs_codes, axes, p2)) => {
                        let rep = if block_codes(blocks, EV_REP) is None {
                            Some((None::<RepeatInfo>, p2))
                        } else if read_u16(s, p2) != Some(EV_REP_BLOCK_NUMBER) {
                            None
                        } else {
                            match (read_i32(s, p2 + 2), read_i32(s, p2 + 6)) {
                                (Some(delay), Some(period)) => Some((Some(RepeatInfo { delay, period }), p2 + 10)),
                                _ => None,
                            }
                        };
                        match rep {
                            None => None,
                            Some((rep, p3)) => if read_u16(s, p3) != Some(FINAL_BLOCK_NUMBER) {
                                None
                            } else {
                                Some(DecodedView { blocks, abs_codes, axes, rep })
                            },
                        }
                    },
                }
            },
        },
    }
}

/// What a file holds, or None if it is not in the format: it must start with the magic number,
/// followed by its own length.
pub open spec fn spec_decode(s: Seq<u8>) -> Option<DecodedView> {
    if s.len() < 12 || s.take(8) != magic() || u32_at(s, 8) != s.len() {
        None
    } else {
        spec_decode_body(s, 12)
    }
}

/// The axis that the file gives a code: that of the last entry for it among the EV_ABS codes.
pub open spec fn decoded_axis(abs_codes: Seq<u16>, axes: Seq<AbsInfo>, c: EventCode) -> Option<AbsInfo>
    decreases abs_codes.len(),
{
    if abs_codes.len() == 0 || c.ev_type.value != EV_ABS {
        None
    } else if abs_codes.last() == c.code {
        Some(axes[abs_codes.len() - 1])
    } else {
        decoded_axis(abs_codes.drop_last(), axes, c)
    }
}

/// Whether capabilities hold what a file says.
pub open spec fn holds_decoded(caps: Capabilities, view: DecodedView) -> bool {
    &&& forall|c: EventCode| caps.has_code(c) <==> exists|k: int, j: int| 0 <= k < view.blocks.len()
        && 0 <= j < view.blocks[k].1.len() && view.blocks[k].0 == c.ev_type.value && (#[trigger] view.blocks[k].1[j]) == c.code
    &&& forall|c: EventCode| #[trigger] caps.axis(c) == decoded_axis(view.abs_codes, view.axes, c)
    &&& caps.rep_spec() == view.rep
}

fn read_u16_at(source: &[u8], pos: usize) -> (res: Option<u16>)
    ensures
        res == read_u16(source@, pos as int),
{
    if pos > source.len() || source.len() - pos < 2 {
        return None;
    }
    let b0 = source[pos] as u16;
    let b1 = source[pos + 1] as u16;
    Some(b0 + 256 * b1)
}

fn read_u32_at(source: &[u8], pos: usize) -> (res: Option<u32>)
    ensures
        match res {
            Some(v) => 0 <= pos && pos + 4 <= source@.len() && v == u32_at(source@, pos as int),
            None => !(pos + 4 <= source@.len()),
        },
{
    if pos > source.len() || source.len() - pos < 4 {
        return None;
    }
    let b0 = source[pos] as u32;
    let b1 = source[pos + 1] as u32;
    let b2 = source[pos + 2] as u32;
    let b3 = source[pos + 3] as u32;
    Some(b0 + 256 * b1 + 65536 * b2 + 16777216 * b3)
}

fn read_i32_at(source: &[u8], pos: usize) -> (res: Option<i32>)
    ensures
        res == read_i32(source@, pos as int),
{
    match read_u32_at(source, pos) {
        Some(v) => Some(v as i32),
        None => None,
    }
}

fn decode_codes(source: &[u8], pos: usize, max: u16, n: u16) -> (res: Option<Vec<u16>>)
    ensures
        match res {
            Some(codes) => dec_codes(source@, pos as int, max as int, n as nat) == Some(codes@),
            None => dec_codes(source@, pos as int, max as int, n as nat) is None,
        },
{
    let mut codes: Vec<u16> = Vec::new();
    let mut k: u16 = 0;
    while k < n
        invariant
            k <= n,
            dec_codes(source@, pos as int, max as int, k as nat) == Some(codes@),
        decreases n - k,
    {
        let at = 2 * (k as usize);
        if pos > source.len() || source.len() - pos < at + 2 {
            proof {
                lemma_dec_codes_none_extends(source@, pos as int, max as int, (k + 1) as nat, n as nat);
            }
            return None;
        }
        let c = match read_u16_at(source, pos + at) {
            Some(c) => c,
            None => {
                proof {
                    lemma_dec_codes_none_extends(source@, pos as int, max as int, (k + 1) as nat, n as nat);
                }
                return None;
            },
        };
        if c > max {
            proof {
                lemma_dec_codes_none_extends(source@, pos as int, max as int, (k + 1) as nat, n as nat);
            }
            return None;
        }
        codes.push(c);
        k += 1;
    }
    Some(codes)
}

proof fn lemma_dec_codes_none_extends(s: Seq<u8>, pos: int, max: int, k: nat, n: nat)
    requires
        k <= n,
        dec_codes(s, pos, max, k) is None,
    ensures
        dec_codes(s, pos, max, n) is None,
    decreases n - k,
{
    if k < n {
        lemma_dec_codes_none_extends(s, pos, max, k + 1, n);
    }
}

proof fn lemma_dec_axes_none_extends(s: Seq<u8>, pos: int, k: nat, n: nat)
    requires
        k <= n,
        dec_axes(s, pos, k) is None,
    ensures
        dec_axes(s, pos, n) is None,
    decreases n - k,
{
    if k < n {
        lemma_dec_axes_none_extends(s, pos, k + 1, n);
    }
}

proof fn lemma_dec_blocks_none_extends(s: Seq<u8>, pos: int, k: nat, n: nat)
    requires
        k <= n,
        dec_blocks(s, pos, k) is None,
    ensures
        dec_blocks(s, pos, n) is None,
    decreases n - k,
{
    if k < n {
        lemma_dec_blocks_none_extends(s, pos, k + 1, n);
    }
}

fn decode_block(source: &[u8], pos: usize) -> (res: Option<(u16, Vec<u16>, usize)>)
    ensures
        match res {
            Some((t, codes, next)) => dec_block(source@, pos as int) == Some((t, codes@, next as int)),
            None => dec_block(source@, pos as int) is None,
        },
{
    let len = source.len();
    let t = match read_u16_at(source, pos) {
        Some(t) => t,
        None => return None,
    };
    if t > EV_MAX {
        return None;
    }
    proof {
        assert(pos + 2 <= source@.len());
    }
    let max = match event_type_get_max(EventType::new(t)) {
        Some(m) => m,
        None => 0xffff,
    };
    let n = match read_u16_at(source, pos + 2) {
        Some(n) => n,
        None => return None,
    };
    proof {
        assert(pos + 4 <= source@.len());
    }
    let codes = match decode_codes(source, pos + 4, max, n) {
        Some(codes) => codes,
        None => return None,
    };
    proof {
        assert(dec_codes(source@, pos + 4, max as int, n as nat) is Some);
        assert(pos + 4 + 2 * n <= source@.len()) by {
            if n > 0 {
                lemma_dec_codes_in_bounds(source@, pos + 4, max as int, n as nat);
            }
        }
    }
    Some((t, codes, pos + 4 + 2 * (n as usize)))
}

proof fn lemma_dec_codes_in_bounds(s: Seq<u8>, pos: int, max: int, n: nat)
    requires
        n > 0,
        dec_codes(s, pos, max, n) is Some,
    ensures
        pos + 2 * n <= s.len(),
{
}

pub open spec fn blocks_view(blocks: Seq<(u16, Vec<u16>)>) -> Seq<(u16, Seq<u16>)> {
    blocks.map_values(|b: (u16, Vec<u16>)| (b.0, b.1@))
}

fn decode_blocks(source: &[u8], pos: usize, n: u16) -> (res: Option<(Vec<(u16, Vec<u16>)>, usize)>)
    ensures
        match res {
            Some((blocks, next)) => dec_blocks(source@, pos as int, n as nat) == Some((blocks_view(blocks@), next as int)),
            None => dec_blocks(source@, pos as int, n as nat) is None,
        },
{
    let mut blocks: Vec<(u16, Vec<u16>)> = Vec::new();
    let mut at = pos;
    let mut k: u16 = 0;
    proof {
        assert(blocks_view(blocks@) =~= Seq::<(u16, Seq<u16>)>::empty());
    }
    while k < n
        invariant
            k <= n,
            dec_blocks(source@, pos as int, k as nat) == Some((blocks_view(blocks@), at as int)),
        decreases n - k,
    {
        let (t, codes, next) = match decode_block(source, at) {
            Some(block) => block,
            None => {
                proof {
                    lemma_dec_blocks_none_extends(source@, pos as int, (k + 1) as nat, n as nat);
                }
                return None;
            },
        };
        let ghost before = blocks_view(blocks@);
        let mut i: usize = 0;
        while i < blocks.len()
            invariant
                i <= blocks@.len(),
                k < n,
                before == blocks_view(blocks@),
                dec_blocks(source@, pos as int, k as nat) == Some((before, at as int)),
                dec_block(source@, at as int) == Some((t, codes@, next as int)),
                forall|j: int| 0 <= j < i ==> (#[trigger] before[j]).0 != t,
            decreases blocks@.len() - i,
        {
            proof {
                assert(before[i as int].0 == blocks@[i as int].0);
            }
            if blocks[i].0 == t {
                proof {
                    assert(before[i as int].0 == t);
                    lemma_dec_blocks_none_extends(source@, pos as int, (k + 1) as nat, n as nat);
                }
                return None;
            }
            i += 1;
        }
        blocks.push((t, codes));
        proof {
            assert(blocks_view(blocks@) =~= before.push((t, codes@)));
        }
        at = next;
        k += 1;
    }
    Some((blocks, at))
}

fn decode_axes(source: &[u8], pos: usize, n: usize) -> (res: Option<Vec<AbsInfo>>)
    ensures
        match res {
            Some(axes) => dec_axes(source@, pos as int, n as nat) == Some(axes@),
            None => dec_axes(source@, pos as int, n as nat) is None,
        },
{
    let mut axes: Vec<AbsInfo> = Vec::new();
    let mut k: usize = 0;
    while k < n
        invariant
            k <= n,
            dec_axes(source@, pos as int, k as nat) == Some(axes@),
        decreases n - k,
    {
        if pos > source.len() || (source.len() - pos) / 20 < k + 1 {
            proof {
                lemma_dec_axes_none_extends(source@, pos as int, (k + 1) as nat, n as nat);
            }
            return None;
        }
        let at = pos + 20 * k;
        let min = read_i32_at(source, at).unwrap();
        let max = read_i32_at(source, at + 4).unwrap();
        let flat = read_i32_at(source, at + 8).unwrap();
        let fuzz = read_i32_at(source, at + 12).unwrap();
        let resolution = read_i32_at(source, at + 16).unwrap();
        if min > max {
            proof {
                lemma_dec_axes_none_extends(source@, pos as int, (k + 1) as nat, n as nat);
            }
            return None;
        }
        let sum: i64 = min as i64 + max as i64;
        let value: i64 = if sum >= 0 { sum / 2 } else { -((-sum) / 2) };
        axes.push(AbsInfo { min_value: min, max_value: max, meta: AbsMeta { flat, fuzz, resolution, value: value as i32 } });
        k += 1;
    }
    Some(axes)
}

fn find_block(blocks: &Vec<(u16, Vec<u16>)>, t: u16) -> (res: Option<usize>)
    requires
        forall|a: int, b: int| 0 <= a < b < blocks@.len() ==> blocks@[a].0 != blocks@[b].0,
    ensures
        match res {
            Some(k) => k < blocks@.len() && blocks@[k as int].0 == t
                && block_codes(blocks_view(blocks@), t) == Some(blocks@[k as int].1@),
            None => block_codes(blocks_view(blocks@), t) is None,
        },
{
    let ghost view = blocks_view(blocks@);
    let mut i: usize = 0;
    while i < blocks.len()
        invariant
            i <= blocks@.len(),
            view == blocks_view(blocks@),
            forall|a: int, b: int| 0 <= a < b < blocks@.len() ==> blocks@[a].0 != blocks@[b].0,
            forall|j: int| 0 <= j < i ==> (#[trigger] view[j]).0 != t,
        decreases blocks@.len() - i,
    {
        proof {
            assert(view[i as int].0 == blocks@[i as int].0);
        }
        if blocks[i].0 == t {
            proof {
                assert(view[i as int].0 == t);
                let k = choose|k: int| 0 <= k < view.len() && (#[trigger] view[k]).0 == t;
                assert(view[k].0 == blocks@[k].0);
                if k != i {
                    if k < i {
                        assert(blocks@[k].0 != blocks@[i as int].0);
                    } else {
                        assert(blocks@[i as int].0 != blocks@[k].0);
                    }
                }
            }
            return Some(i);
        }
        i += 1;
    }
    None
}

proof fn lemma_dec_blocks_distinct(s: Seq<u8>, pos: int, n: nat)
    ensures
        dec_blocks(s, pos, n) matches Some((blocks, _)) ==> forall|a: int, b: int| 0 <= a < b < blocks.len() ==> blocks[a].0 != blocks[b].0,
    decreases n,
{
    if n > 0 {
        lemma_dec_blocks_distinct(s, pos, (n - 1) as nat);
        if let Some((blocks, p)) = dec_blocks(s, pos, (n - 1) as nat) {
            if let Some((t, codes, p2)) = dec_block(s, p) {
                if !(exists|k: int| 0 <= k < blocks.len() && (#[trigger] blocks[k]).0 == t) {
                    let nb = blocks.push((t, codes));
                    assert forall|a: int, b: int| 0 <= a < b < nb.len() implies nb[a].0 != nb[b].0 by {
                        assert(nb[a] == blocks[a]);
                        if b < blocks.len() {
                            assert(nb[b] == blocks[b]);
                        } else {
                            assert(blocks[a].0 != t);
                        }
                    }
                }
            }
        }
    }
}

/// Reads capabilities from a file in the format.
pub fn decode(source: &[u8]) -> (res: Result<Capabilities, InvalidFormatError>)
    ensures
        match res {
            Ok(caps) => caps.well_formed() && (spec_decode(source@) matches Some(view) && holds_decoded(caps, view)),
            Err(_) => spec_decode(source@) is None,
        },
{
    if source.len() < 12 {
        return Err(InvalidFormatError);
    }
    let expected: Vec<u8> = vec![0x45u8, 0x56u8, 0x53u8, 0x56u8, 0x41u8, 0xe7u8, 0x75u8, 0x01u8];
    let mut i: usize = 0;
    while i < 8
        invariant
            i <= 8,
            source@.len() >= 8,
            expected@ == magic(),
            forall|k: int| 0 <= k < i ==> source@[k] == magic()[k],
        decreases 8 - i,
    {
        if source[i] != expected[i] {
            proof {
                assert(source@.take(8)[i as int] != magic()[i as int]);
            }
            return Err(InvalidFormatError);
        }
        i += 1;
    }
    proof {
        assert(source@.take(8) =~= magic());
    }
    let declared_length = match read_u32_at(source, 8) {
        Some(v) => v,
        None => return Err(InvalidFormatError),
    };
    if declared_length as usize != source.len() {
        return Err(InvalidFormatError);
    }
    let num_types = match read_u16_at(source, 12) {
        Some(v) => v,
        None => return Err(InvalidFormatError),
    };
    let (blocks, p1) = match decode_blocks(source, 14, num_types) {
        Some(b) => b,
        None => return Err(InvalidFormatError),
    };
    proof {
        lemma_dec_blocks_distinct(source@, 14, num_types as nat);
        assert forall|a: int, b: int| 0 <= a < b < blocks@.len() implies blocks@[a].0 != blocks@[b].0 by {
            assert(blocks_view(blocks@)[a].0 == blocks@[a].0);
            assert(blocks_view(blocks@)[b].0 == blocks@[b].0);
        }
    }
    // The special blocks.
    let mut abs_codes: Vec<u16> = Vec::new();
    let mut axes: Vec<AbsInfo> = Vec::new();
    let mut p2 = p1;
    match find_block(&blocks, EV_ABS) {
        None => {},
        Some(k) => {
            if read_u16_at(source, p1) != Some(EV_ABS_BLOCK_NUMBER) {
                return Err(InvalidFormatError);
            }
            let codes = &blocks[k].1;
            if p1 > source.len() {
                return Err(InvalidFormatError);
            }
            axes = match decode_axes(source, p1 + 2, codes.len()) {
                Some(a) => a,
                None => return Err(InvalidFormatError),
            };
            proof {
                if codes@.len() > 0 {
                    lemma_dec_axes_in_bounds(source@, p1 + 2, codes@.len());
                }
            }
            abs_codes = codes.clone();
            proof {
                assert(abs_codes@ =~= codes@);
            }
            p2 = p1 + 2 + 20 * codes.len();
        },
    }
    let mut rep: Option<RepeatInfo> = None;
    let mut p3 = p2;
    match find_block(&blocks, EV_REP) {
        None => {},
        Some(_) => {
            if read_u16_at(source, p2) != Some(EV_REP_BLOCK_NUMBER) {
                return Err(InvalidFormatError);
            }
            let delay = match read_i32_at(source, p2 + 2) {
                Some(v) => v,
                None => return Err(InvalidFormatError),
            };
            let period = match read_i32_at(source, p2 + 6) {
                Some(v) => v,
                None => return Err(InvalidFormatError),
            };
            rep = Some(RepeatInfo { delay, period });
            p3 = p2 + 10;
        },
    }
    if read_u16_at(source, p3) != Some(FINAL_BLOCK_NUMBER) {
        return Err(InvalidFormatError);
    }
    let ghost view = DecodedView { blocks: blocks_view(blocks@), abs_codes: abs_codes@, axes: axes@, rep };
    proof {
        assert(spec_decode(source@) == Some(view));
    }
    let caps = build_capabilities(&blocks, &abs_codes, &axes, rep);
    Ok(caps)
}

proof fn lemma_dec_axes_in_bounds(s: Seq<u8>, pos: int, n: nat)
    requires
        n > 0,
        dec_axes(s, pos, n) is Some,
    ensures
        pos + 20 * n <= s.len(),
        dec_axes(s, pos, n).unwrap().len() == n,
    decreases n,
{
    if n > 1 {
        lemma_dec_axes_in_bounds(s, pos, (n - 1) as nat);
    } else {
        assert(dec_axes(s, pos, 0) == Some(Seq::<AbsInfo>::empty()));
    }
}

fn build_capabilities(blocks: &Vec<(u16, Vec<u16>)>, abs_codes: &Vec<u16>, axes: &Vec<AbsInfo>, rep: Option<RepeatInfo>)
    -> (res: Capabilities)
    requires
        axes@.len() >= abs_codes@.len(),
    ensures
        res.well_formed(),
        holds_decoded(res, DecodedView { blocks: blocks_view(blocks@), abs_codes: abs_codes@, axes: axes@, rep }),
{
    let ghost bview = blocks_view(blocks@);
    let mut caps = Capabilities::new();
    let mut k: usize = 0;
    while k < blocks.len()
        invariant
            k <= blocks@.len(),
            bview == blocks_view(blocks@),
            caps.well_formed(),
            caps.abs_seq() == Seq::<(EventCode, AbsInfo)>::empty(),
            caps.rep_spec() is None,
            forall|c: EventCode| caps.has_code(c) <==> exists|a: int, j: int| 0 <= a < k
                && 0 <= j < bview[a].1.len() && bview[a].0 == c.ev_type.value && (#[trigger] bview[a].1[j]) == c.code,
        decreases blocks@.len() - k,
    {
        let t = blocks[k].0;
        let codes = &blocks[k].1;
        proof {
            assert(bview[k as int] == (t, codes@));
        }
        let mut j: usize = 0;
        while j < codes.len()
            invariant
                j <= codes@.len(),
                k < blocks@.len(),
                bview == blocks_view(blocks@),
                bview[k as int] == (t, codes@),
                caps.well_formed(),
                caps.abs_seq() == Seq::<(EventCode, AbsInfo)>::empty(),
                caps.rep_spec() is None,
                forall|c: EventCode| caps.has_code(c) <==> (exists|a: int, i: int| 0 <= a < k
                    && 0 <= i < bview[a].1.len() && bview[a].0 == c.ev_type.value && (#[trigger] bview[a].1[i]) == c.code)
                    || (c.ev_type.value == t && exists|i: int| 0 <= i < j && codes@[i] == c.code),
            decreases codes@.len() - j,
        {
            let code = EventCode::new(EventType::new(t), codes[j]);
            caps.add_code(code);
            proof {
                assert forall|c: EventCode| caps.has_code(c) <==> (exists|a: int, i: int| 0 <= a < k
                    && 0 <= i < bview[a].1.len() && bview[a].0 == c.ev_type.value && (#[trigger] bview[a].1[i]) == c.code)
                    || (c.ev_type.value == t && exists|i: int| 0 <= i < j + 1 && codes@[i] == c.code) by {
                    if c == code {
                        assert(codes@[j as int] == c.code);
                    }
                    if c.ev_type.value == t && (exists|i: int| 0 <= i < j + 1 && codes@[i] == c.code) {
                        let i = choose|i: int| 0 <= i < j + 1 && codes@[i] == c.code;
                        if i == j {
                            assert(c == code);
                        }
                    }
                }
            }
            j += 1;
        }
        proof {
            assert forall|c: EventCode| caps.has_code(c) <==> exists|a: int, i: int| 0 <= a < k + 1
                && 0 <= i < bview[a].1.len() && bview[a].0 == c.ev_type.value && (#[trigger] bview[a].1[i]) == c.code by {
                if caps.has_code(c) && c.ev_type.value == t && exists|i: int| 0 <= i < codes@.len() && codes@[i] == c.code {
                    let i = choose|i: int| 0 <= i < codes@.len() && codes@[i] == c.code;
                    assert(bview[k as int].1[i] == c.code);
                }
                if exists|a: int, i: int| 0 <= a < k + 1
                    && 0 <= i < bview[a].1.len() && bview[a].0 == c.ev_type.value && (#[trigger] bview[a].1[i]) == c.code {
                    let (a, i) = choose|a: int, i: int| 0 <= a < k + 1
                        && 0 <= i < bview[a].1.len() && bview[a].0 == c.ev_type.value && (#[trigger] bview[a].1[i]) == c.code;
                    if a == k {
                        assert(codes@[i] == c.code);
                    }
                }
            }
        }
        k += 1;
    }
    let mut a: usize = 0;
    while a < abs_codes.len()
        invariant
            a <= abs_codes@.len(),
            axes@.len() >= abs_codes@.len(),
            caps.well_formed(),
            caps.rep_spec() is None,
            forall|c: EventCode| caps.has_code(c) <==> exists|b: int, j: int| 0 <= b < bview.len()
                && 0 <= j < bview[b].1.len() && bview[b].0 == c.ev_type.value && (#[trigger] bview[b].1[j]) == c.code,
            forall|c: EventCode| #[trigger] caps.axis(c) == decoded_axis(abs_codes@.take(a as int), axes@, c),
        decreases abs_codes@.len() - a,
    {
        let code = EventCode::new(EventType::abs(), abs_codes[a]);
        caps.set_axis(code, axes[a]);
        proof {
            assert(abs_codes@.take(a + 1).drop_last() == abs_codes@.take(a as int));
            assert(abs_codes@.take(a + 1).last() == abs_codes@[a as int]);
            assert forall|c: EventCode| #[trigger] caps.axis(c) == decoded_axis(abs_codes@.take(a + 1), axes@, c) by {
                if c.ev_type.value == EV_ABS && c.code == abs_codes@[a as int] {
                    assert(c == code);
                }
            }
        }
        a += 1;
    }
    proof {
        assert(abs_codes@.take(abs_codes@.len() as int) == abs_codes@);
    }
    caps.set_rep_info(rep);
    proof {
        let view = DecodedView { blocks: blocks_view(blocks@), abs_codes: abs_codes@, axes: axes@, rep };
        assert(view.blocks == bview);
        assert(forall|c: EventCode| #[trigger] caps.axis(c) == decoded_axis(view.abs_codes, view.axes, c));
        assert(caps.rep_spec() == view.rep);
    }
    caps
}

} // verus!
