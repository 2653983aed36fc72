//! What the output devices must be able to emit, and when they must be made anew.

use vstd::prelude::*;

use crate::arguments::output::RepeatMode;
use crate::capability::{compatible_caps, merged_axis, rep_codes, type_list, AbsInfo, Capabilities, Capability, RepeatInfo};
use crate::domain::Domain;
use crate::ecodes::{REP_DELAY, REP_PERIOD};
use crate::error::InternalError;
use crate::event::{EventCode, EventType, EV_ABS, EV_KEY, EV_REP, EV_SYN};
use crate::text::{chars_of, concat_chars, decimal_chars, join_strs, spec_decimal, string_from_chars, strings_view};

verus! {

/// Whether one of the capabilities of a domain has a code.
pub open spec fn domain_has_code(caps: Seq<Capability>, d: Domain, c: EventCode) -> bool {
    exists|i: int| 0 <= i < caps.len() && (#[trigger] caps[i]).domain == d && caps[i].code == c
}

/// The axis of a code of a domain, merged from its capabilities in order.
pub open spec fn domain_axis(caps: Seq<Capability>, d: Domain, c: EventCode) -> Option<AbsInfo>
    decreases caps.len(),
{
    if caps.len() == 0 {
        None
    } else {
        let prev = domain_axis(caps.drop_last(), d, c);
        let cap = caps.last();
        if cap.domain == d && cap.code == c && c.ev_type.value == EV_ABS {
            Some(merged_axis(prev, cap))
        } else {
            prev
        }
    }
}

/// The repeat modes of the output devices of a domain, in order.
pub open spec fn modes_of(devices: Seq<(Domain, RepeatMode)>, d: Domain) -> Seq<RepeatMode>
    decreases devices.len(),
{
    if devices.len() == 0 {
        Seq::empty()
    } else if devices.last().0 == d {
        modes_of(devices.drop_last(), d).push(devices.last().1)
    } else {
        modes_of(devices.drop_last(), d)
    }
}

/// The repeat information after the devices' modes were applied in order: a device that enables
/// repeats makes sure there is some, and one that does not removes it.
pub open spec fn rep_after(modes: Seq<RepeatMode>) -> Option<RepeatInfo>
    decreases modes.len(),
{
    if modes.len() == 0 {
        None
    } else {
        let r = rep_after(modes.drop_last());
        match modes.last() {
            RepeatMode::Enable => if r is None { Some(RepeatInfo { delay: 250, period: 33 }) } else { r },
            _ => None,
        }
    }
}

/// Whether a code is present after the devices' modes were applied in order, where `base` says
/// whether it was present before.
pub open spec fn has_code_after(base: bool, c: EventCode, modes: Seq<RepeatMode>) -> bool
    decreases modes.len(),
{
    if modes.len() == 0 {
        base
    } else {
        let b = has_code_after(base, c, modes.drop_last());
        match modes.last() {
            RepeatMode::Enable => if rep_after(modes.drop_last()) is None { b || rep_codes().contains(c) } else { b },
            _ => b && !rep_codes().contains(c),
        }
    }
}

/// Whether a domain has capabilities or an output device.
pub open spec fn domain_in_use(caps: Seq<Capability>, devices: Seq<(Domain, RepeatMode)>, d: Domain) -> bool {
    (exists|i: int| 0 <= i < caps.len() && (#[trigger] caps[i]).domain == d)
        || (exists|i: int| 0 <= i < devices.len() && (#[trigger] devices[i]).0 == d)
}

/// The capabilities of one domain after its capabilities and the modes of its devices were applied.
pub open spec fn domain_caps_are(k: Capabilities, caps: Seq<Capability>, devices: Seq<(Domain, RepeatMode)>, d: Domain) -> bool {
    &&& k.well_formed()
    &&& forall|c: EventCode| #[trigger] k.has_code(c) == has_code_after(domain_has_code(caps, d, c), c, modes_of(devices, d))
    &&& forall|c: EventCode| #[trigger] k.axis(c) == domain_axis(caps, d, c)
    &&& k.rep_spec() == rep_after(modes_of(devices, d))
}

/// Whether one of the first `n` capabilities is of domain `d`.
pub open spec fn caps_use_domain(caps: Seq<Capability>, n: int, d: Domain) -> bool {
    exists|j: int| 0 <= j < n && (#[trigger] caps[j]).domain == d
}

/// Whether one of the first `n` devices is of domain `d`.
pub open spec fn devices_use_domain(devices: Seq<(Domain, RepeatMode)>, n: int, d: Domain) -> bool {
    exists|y: int| 0 <= y < n && (#[trigger] devices[y]).0 == d
}

/// Whether a list of domains with their capabilities has an entry for `d`.
pub open spec fn keyed_by(map: Seq<(Domain, Capabilities)>, d: Domain) -> bool {
    exists|x: int| 0 <= x < map.len() && (#[trigger] map[x]).0 == d
}

fn find_domain(map: &Vec<(Domain, Capabilities)>, d: Domain) -> (res: Option<usize>)
    ensures
        match res {
            Some(i) => i < map@.len() && map@[i as int].0 == d,
            None => forall|i: int| 0 <= i < map@.len() ==> (#[trigger] map@[i]).0 != d,
        },
{
    let mut i: usize = 0;
    while i < map.len()
        invariant
            i <= map@.len(),
            forall|j: int| 0 <= j < i ==> (#[trigger] map@[j]).0 != d,
        decreases map@.len() - i,
    {
        if map[i].0 == d {
            return Some(i);
        }
        i += 1;
    }
    None
}

proof fn lemma_domain_has_code_push(caps: Seq<Capability>, cap: Capability, d: Domain, c: EventCode)
    ensures
        domain_has_code(caps.push(cap), d, c) == (domain_has_code(caps, d, c) || (cap.domain == d && cap.code == c)),
{
    let s = caps.push(cap);
    if domain_has_code(s, d, c) {
        let i = choose|i: int| 0 <= i < s.len() && (#[trigger] s[i]).domain == d && s[i].code == c;
        if i < caps.len() {
            assert(caps[i] == s[i]);
        }
    }
    if domain_has_code(caps, d, c) {
        let i = choose|i: int| 0 <= i < caps.len() && (#[trigger] caps[i]).domain == d && caps[i].code == c;
        assert(s[i] == caps[i]);
    }
    if cap.domain == d && cap.code == c {
        assert(s[caps.len() as int] == cap);
    }
}

/// Sorts capabilities by the domain of the output device that they go to, and applies the repeat
/// mode of each device. Every domain that has capabilities or a device gets one entry.
pub fn capabilites_by_device(capabilities: &Vec<Capability>, devices: &Vec<(Domain, RepeatMode)>)
    -> (res: Vec<(Domain, Capabilities)>)
    ensures
        forall|a: int, b: int| 0 <= a < b < res@.len() ==> res@[a].0 != res@[b].0,
        forall|d: Domain| #![trigger domain_in_use(capabilities@, devices@, d)] #![trigger keyed_by(res@, d)]
            domain_in_use(capabilities@, devices@, d) == keyed_by(res@, d),
        forall|i: int| 0 <= i < res@.len()
            ==> domain_caps_are((#[trigger] res@[i]).1, capabilities@, devices@, res@[i].0),
{
    let ghost caps = capabilities@;
    let ghost devs = devices@;
    let mut map: Vec<(Domain, Capabilities)> = Vec::new();
    let mut i: usize = 0;
    while i < capabilities.len()
        invariant
            i <= caps.len(),
            caps == capabilities@,
            forall|a: int, b: int| 0 <= a < b < map@.len() ==> map@[a].0 != map@[b].0,
            forall|d: Domain| #![trigger keyed_by(map@, d)] caps_use_domain(caps, i as int, d) == keyed_by(map@, d),
            forall|x: int| 0 <= x < map@.len() ==> {
                let (d, k) = #[trigger] map@[x];
                &&& k.well_formed()
                &&& forall|c: EventCode| #[trigger] k.has_code(c) == domain_has_code(caps.take(i as int), d, c)
                &&& forall|c: EventCode| #[trigger] k.axis(c) == domain_axis(caps.take(i as int), d, c)
                &&& k.rep_spec() is None
            },
        decreases caps.len() - i,
    {
        let cap = capabilities[i];
        let ghost prefix = caps.take(i as int);
        proof {
            assert(caps.take(i + 1) == prefix.push(cap));
            assert(caps.take(i + 1).drop_last() == prefix);
        }
        let ghost pre = map@;
        let idx = match find_domain(&map, cap.domain) {
            Some(x) => x,
            None => {
                map.push((cap.domain, Capabilities::new()));
                proof {
                    assert(!keyed_by(pre, cap.domain));
                    assert(!caps_use_domain(caps, i as int, cap.domain));
                    assert forall|c: EventCode| !domain_has_code(prefix, cap.domain, c) by {
                        if domain_has_code(prefix, cap.domain, c) {
                            let j = choose|j: int| 0 <= j < prefix.len() && (#[trigger] prefix[j]).domain == cap.domain && prefix[j].code == c;
                            assert(caps[j] == prefix[j]);
                            assert(caps_use_domain(caps, i as int, cap.domain));
                        }
                    }
                    assert forall|c: EventCode| domain_axis(prefix, cap.domain, c) is None by {
                        if exists|x: int| 0 <= x < prefix.len() && (#[trigger] prefix[x]).domain == cap.domain && prefix[x].code == c {
                            let x = choose|x: int| 0 <= x < prefix.len() && (#[trigger] prefix[x]).domain == cap.domain && prefix[x].code == c;
                            assert(caps[x] == prefix[x]);
                        }
                        lemma_domain_axis_unused(prefix, cap.domain, c);
                    }
                }
                map.len() - 1
            },
        };
        let ghost before = map@;
        map[idx].1.add_capability(cap);
        proof {
            assert forall|x: int| 0 <= x < map@.len() implies {
                let (d, k) = #[trigger] map@[x];
                &&& k.well_formed()
                &&& forall|c: EventCode| #[trigger] k.has_code(c) == domain_has_code(caps.take(i + 1), d, c)
                &&& forall|c: EventCode| #[trigger] k.axis(c) == domain_axis(caps.take(i + 1), d, c)
                &&& k.rep_spec() is None
            } by {
                let (d, k) = map@[x];
                assert forall|c: EventCode| #[trigger] k.has_code(c) == domain_has_code(caps.take(i + 1), d, c) by {
                    lemma_domain_has_code_push(prefix, cap, d, c);
                    if x != idx {
                        assert(map@[x] == before[x]);
                    }
                }
                assert forall|c: EventCode| #[trigger] k.axis(c) == domain_axis(caps.take(i + 1), d, c) by {
                    if x != idx {
                        assert(map@[x] == before[x]);
                    }
                }
                if x != idx {
                    assert(map@[x] == before[x]);
                }
            }
            assert forall|d: Domain| #![trigger keyed_by(map@, d)] caps_use_domain(caps, i + 1, d) == keyed_by(map@, d) by {
                assert(caps_use_domain(caps, i as int, d) == keyed_by(pre, d));
                assert(before.len() == pre.len() || before.len() == pre.len() + 1);
                assert forall|x: int| 0 <= x < pre.len() implies before[x] == pre[x] by {}
                if caps_use_domain(caps, i + 1, d) {
                    let j = choose|j: int| 0 <= j < i + 1 && (#[trigger] caps[j]).domain == d;
                    if j == i {
                        assert(map@[idx as int].0 == d);
                    } else {
                        assert(caps_use_domain(caps, i as int, d));
                        let x = choose|x: int| 0 <= x < pre.len() && (#[trigger] pre[x]).0 == d;
                        assert(before[x] == pre[x]);
                        assert(map@[x].0 == d);
                    }
                }
                if keyed_by(map@, d) {
                    let x = choose|x: int| 0 <= x < map@.len() && (#[trigger] map@[x]).0 == d;
                    assert(before[x].0 == d);
                    if x < pre.len() {
                        assert(before[x] == pre[x]);
                        assert(keyed_by(pre, d));
                    } else {
                        assert(d == cap.domain);
                        assert(caps[i as int].domain == d);
                    }
                }
            }
            assert forall|a: int, b: int| 0 <= a < b < map@.len() implies map@[a].0 != map@[b].0 by {
                assert(map@[a].0 == before[a].0);
                assert(map@[b].0 == before[b].0);
            }
        }
        i += 1;
    }
    proof {
        assert(caps.take(caps.len() as int) == caps);
    }
    let mut j: usize = 0;
    while j < devices.len()
        invariant
            j <= devs.len(),
            devs == devices@,
            caps == capabilities@,
            forall|a: int, b: int| 0 <= a < b < map@.len() ==> map@[a].0 != map@[b].0,
            forall|d: Domain| #![trigger keyed_by(map@, d)]
                (caps_use_domain(caps, caps.len() as int, d) || devices_use_domain(devs, j as int, d)) == keyed_by(map@, d),
            forall|x: int| 0 <= x < map@.len()
                ==> domain_caps_are((#[trigger] map@[x]).1, caps, devs.take(j as int), map@[x].0),
        decreases devs.len() - j,
    {
        let (domain, mode) = devices[j];
        let ghost prefix = devs.take(j as int);
        proof {
            assert(devs.take(j + 1) == prefix.push((domain, mode)));
            assert(devs.take(j + 1).drop_last() == prefix);
            assert(devs.take(j + 1).last() == (domain, mode));
        }
        let ghost pre = map@;
        let idx = match find_domain(&map, domain) {
            Some(x) => x,
            None => {
                map.push((domain, Capabilities::new()));
                proof {
                    assert(!keyed_by(pre, domain));
                    assert forall|c: EventCode| !domain_has_code(caps, domain, c) by {
                        if domain_has_code(caps, domain, c) {
                            let x = choose|x: int| 0 <= x < caps.len() && (#[trigger] caps[x]).domain == domain && caps[x].code == c;
                            assert(caps_use_domain(caps, caps.len() as int, domain));
                        }
                    }
                    assert(!caps_use_domain(caps, caps.len() as int, domain));
                    assert(!devices_use_domain(devs, j as int, domain));
                    assert forall|c: EventCode| domain_axis(caps, domain, c) is None by {
                        lemma_domain_axis_unused(caps, domain, c);
                    }
                    assert(modes_of(prefix, domain).len() == 0) by {
                        lemma_modes_of_unused(prefix, domain);
                    }
                }
                map.len() - 1
            },
        };
        let ghost before = map@;
        let ghost old_k = map@[idx as int].1;
        match mode {
            RepeatMode::Enable => map[idx].1.require_ev_rep(),
            _ => map[idx].1.remove_ev_rep(),
        }
        proof {
            let ms = modes_of(prefix, domain);
            assert(modes_of(devs.take(j + 1), domain) == ms.push(mode));
            assert(ms.push(mode).drop_last() == ms);
            assert forall|x: int| 0 <= x < map@.len()
                implies domain_caps_are((#[trigger] map@[x]).1, caps, devs.take(j + 1), map@[x].0) by {
                let d = map@[x].0;
                if x == idx {
                    let k = map@[x].1;
                    assert forall|c: EventCode| #[trigger] k.has_code(c) == has_code_after(domain_has_code(caps, d, c), c, modes_of(devs.take(j + 1), d)) by {
                        assert(old_k.has_code(c) == has_code_after(domain_has_code(caps, d, c), c, ms));
                    }
                    assert forall|c: EventCode| #[trigger] k.axis(c) == domain_axis(caps, d, c) by {
                        assert(old_k.axis(c) == domain_axis(caps, d, c));
                    }
                } else {
                    assert(map@[x] == before[x]);
                    assert(modes_of(devs.take(j + 1), d) == modes_of(prefix, d));
                }
            }
            assert forall|d: Domain| #![trigger keyed_by(map@, d)]
                (caps_use_domain(caps, caps.len() as int, d) || devices_use_domain(devs, j + 1, d)) == keyed_by(map@, d) by {
                assert((caps_use_domain(caps, caps.len() as int, d) || devices_use_domain(devs, j as int, d)) == keyed_by(pre, d));
                assert forall|x: int| 0 <= x < pre.len() implies before[x] == pre[x] by {}
                if devices_use_domain(devs, j + 1, d) {
                    let y = choose|y: int| 0 <= y < j + 1 && (#[trigger] devs[y]).0 == d;
                    if y == j {
                        assert(map@[idx as int].0 == d);
                    } else {
                        assert(devices_use_domain(devs, j as int, d));
                        let x = choose|x: int| 0 <= x < pre.len() && (#[trigger] pre[x]).0 == d;
                        assert(before[x] == pre[x]);
                        assert(map@[x].0 == d);
                    }
                }
                if keyed_by(pre, d) {
                    let x = choose|x: int| 0 <= x < pre.len() && (#[trigger] pre[x]).0 == d;
                    assert(before[x] == pre[x]);
                    assert(map@[x].0 == d);
                }
                if keyed_by(map@, d) {
                    let x = choose|x: int| 0 <= x < map@.len() && (#[trigger] map@[x]).0 == d;
                    assert(before[x].0 == d);
                    if x < pre.len() {
                        assert(before[x] == pre[x]);
                        assert(keyed_by(pre, d));
                    } else {
                        assert(d == domain);
                        assert(devs[j as int].0 == d);
                    }
                }
            }
            assert forall|a: int, b: int| 0 <= a < b < map@.len() implies map@[a].0 != map@[b].0 by {
                assert(map@[a].0 == before[a].0);
                assert(map@[b].0 == before[b].0);
            }
        }
        j += 1;
    }
    proof {
        assert(devs.take(devs.len() as int) == devs);
    }
    map
}

proof fn lemma_domain_axis_unused(caps: Seq<Capability>, d: Domain, c: EventCode)
    requires
        !(exists|i: int| 0 <= i < caps.len() && (#[trigger] caps[i]).domain == d && caps[i].code == c),
    ensures
        domain_axis(caps, d, c) is None,
    decreases caps.len(),
{
    if caps.len() > 0 {
        let p = caps.drop_last();
        assert forall|i: int| 0 <= i < p.len() implies !((#[trigger] p[i]).domain == d && p[i].code == c) by {
            assert(p[i] == caps[i]);
        }
        lemma_domain_axis_unused(p, d, c);
        assert(caps.last() == caps[caps.len() - 1]);
    }
}

proof fn lemma_modes_of_unused(devices: Seq<(Domain, RepeatMode)>, d: Domain)
    requires
        !(exists|i: int| 0 <= i < devices.len() && (#[trigger] devices[i]).0 == d),
    ensures
        modes_of(devices, d).len() == 0,
    decreases devices.len(),
{
    if devices.len() > 0 {
        let p = devices.drop_last();
        assert forall|i: int| 0 <= i < p.len() implies (#[trigger] p[i]).0 != d by {
            assert(p[i] == devices[i]);
        }
        lemma_modes_of_unused(p, d);
        assert(devices.last() == devices[devices.len() - 1]);
    }
}

/// Whether an output device must be made anew: when it cannot emit all that it is now asked to.
pub fn needs_recreation(new_caps: &Capabilities, current_caps: &Capabilities) -> (res: bool)
    requires
        new_caps.well_formed(),
        current_caps.well_formed(),
    ensures
        res == !compatible_caps(*new_caps, *current_caps),
{
    !new_caps.is_compatible_with(current_caps)
}

/// A path between double quotes.
pub open spec fn quoted(path: Seq<char>) -> Seq<char> {
    seq!['"'] + path + seq!['"']
}

/// The quoted paths of the devices that have a link, in order.
pub open spec fn quoted_names(links: Seq<Option<Seq<char>>>) -> Seq<Seq<char>>
    decreases links.len(),
{
    if links.len() == 0 {
        Seq::empty()
    } else {
        match links.last() {
            Some(p) => quoted_names(links.drop_last()).push(quoted(p)),
            None => quoted_names(links.drop_last()),
        }
    }
}

/// Texts joined with a comma and a space between each two.
pub open spec fn join_comma(list: Seq<Seq<char>>) -> Seq<char>
    decreases list.len(),
{
    if list.len() == 0 {
        Seq::empty()
    } else if list.len() == 1 {
        list[0]
    } else {
        join_comma(list.drop_last()) + ", "@ + list.last()
    }
}

/// The warning that some output devices were made anew, given the link of each (if it has one);
/// nothing if none was.
pub open spec fn spec_recreation_warning(links: Seq<Option<Seq<char>>>) -> Seq<char> {
    if links.len() == 0 {
        Seq::empty()
    } else {
        let named = quoted_names(links);
        let unnamed = (links.len() - named.len()) as nat;
        let who = if named.len() == 0 {
            if unnamed == 1 {
                "an output device "@
            } else {
                spec_decimal(unnamed) + " output devices "@
            }
        } else {
            (if named.len() == 1 { "the output device "@ } else { "the output devices "@ }) + join_comma(named) + (
            if unnamed == 0 {
                " "@
            } else if unnamed == 1 {
                ", and an unnamed output device "@
            } else {
                ", and "@ + spec_decimal(unnamed) + " unnamed output devices "@
            })
        };
        "Warning: due to a change in the capabilities of the input devices, "@ + who + (if links.len() == 1 {
            "has been destroyed and recreated. "@
        } else {
            "have been destroyed and recreated. "@
        }) + "This may cause other programs that have grabbed the output devices to lose track of them."@
    }
}

fn push_str(out: &mut Vec<char>, s: &str)
    ensures
        final(out)@ == old(out)@ + s@,
{
    let chars = chars_of(s);
    let joined = concat_chars(out.as_slice(), chars.as_slice());
    *out = joined;
}

proof fn lemma_quoted_names_len(links: Seq<Option<Seq<char>>>)
    ensures
        quoted_names(links).len() <= links.len(),
    decreases links.len(),
{
    if links.len() > 0 {
        lemma_quoted_names_len(links.drop_last());
    }
}

/// The warning that the output devices with these links (None for a device without one) were
/// destroyed and made anew; empty if there were none.
pub fn format_output_device_recreation_warning(links: &Vec<Option<String>>) -> (res: String)
    ensures
        res@ == spec_recreation_warning(links@.map_values(|l: Option<String>| crate::arguments::output::opt_string_view(l))),
{
    let ghost lv = links@.map_values(|l: Option<String>| crate::arguments::output::opt_string_view(l));
    if links.len() == 0 {
        return string_from_chars(&Vec::new());
    }
    // The quoted names, joined.
    let mut names: Vec<char> = Vec::new();
    let mut named: usize = 0;
    let mut i: usize = 0;
    while i < links.len()
        invariant
            i <= links@.len(),
            lv == links@.map_values(|l: Option<String>| crate::arguments::output::opt_string_view(l)),
            named == quoted_names(lv.take(i as int)).len(),
            names@ == join_comma(quoted_names(lv.take(i as int))),
            named <= i,
        decreases links@.len() - i,
    {
        proof {
            assert(lv.take(i + 1).drop_last() == lv.take(i as int));
            assert(lv.take(i + 1).last() == lv[i as int]);
            lemma_quoted_names_len(lv.take(i as int));
        }
        match &links[i] {
            Some(path) => {
                let q: Vec<char> = vec!['"'];
                let p = chars_of(path.as_str());
                let mut piece = concat_chars(q.as_slice(), p.as_slice());
                piece.push('"');
                proof {
                    assert(q@ == seq!['"']);
                    assert(piece@ == quoted(path@));
                    assert(lv[i as int] == Some(path@));
                }
                if named > 0 {
                    push_str(&mut names, ", ");
                }
                names = concat_chars(names.as_slice(), piece.as_slice());
                named += 1;
                proof {
                    let qn = quoted_names(lv.take(i + 1));
                    assert(qn == quoted_names(lv.take(i as int)).push(quoted(path@)));
                    assert(qn.drop_last() == quoted_names(lv.take(i as int)));
                    if qn.len() == 1 {
                        assert(join_comma(quoted_names(lv.take(i as int))) == Seq::<char>::empty());
                        assert(names@ =~= qn[0]);
                    }
                }
            },
            None => {
                proof {
                    assert(lv[i as int] is None);
                }
            },
        }
        i += 1;
    }
    proof {
        assert(lv.take(lv.len() as int) == lv);
    }
    let unnamed = links.len() - named;
    let mut msg: Vec<char> = Vec::new();
    push_str(&mut msg, "Warning: due to a change in the capabilities of the input devices, ");
    if named == 0 {
        if unnamed == 1 {
            push_str(&mut msg, "an output device ");
        } else {
            let digits = decimal_chars(unnamed as u64);
            msg = concat_chars(msg.as_slice(), digits.as_slice());
            push_str(&mut msg, " output devices ");
        }
    } else {
        if named == 1 {
            push_str(&mut msg, "the output device ");
        } else {
            push_str(&mut msg, "the output devices ");
        }
        msg = concat_chars(msg.as_slice(), names.as_slice());
        if unnamed == 0 {
            push_str(&mut msg, " ");
        } else if unnamed == 1 {
            push_str(&mut msg, ", and an unnamed output device ");
        } else {
            push_str(&mut msg, ", and ");
            let digits = decimal_chars(unnamed as u64);
            msg = concat_chars(msg.as_slice(), digits.as_slice());
            push_str(&mut msg, " unnamed output devices ");
        }
    }
    if links.len() == 1 {
        push_str(&mut msg, "has been destroyed and recreated. ");
    } else {
        push_str(&mut msg, "have been destroyed and recreated. ");
    }
    push_str(&mut msg, "This may cause other programs that have grabbed the output devices to lose track of them.");
    proof {
        let spec = spec_recreation_warning(lv);
        assert(msg@ =~= spec);
    }
    string_from_chars(msg.as_slice())
}

/// What enabling one code on a new output device takes.
#[derive(Clone, Copy, PartialEq, Eq, Debug)]
pub enum CodeSetup {
    /// An absolute axis, with its information.
    Axis(EventCode, AbsInfo),
    /// A code of key repetition, with its value.
    Repeat(EventCode, i32),
    /// Any other code.
    Plain(EventCode),
}

/// What becomes of one code when a device is set up.
pub enum SetupOutcome {
    /// The code is enabled so.
    Setup(CodeSetup),
    /// The code is left out, with a warning.
    Skipped(Seq<char>),
    /// The device cannot be set up.
    Missing,
}

/// The warning for a repeat code other than the delay and the period.
pub open spec fn unknown_repeat_warning(code: u16) -> Seq<char> {
    "Warning: encountered an unknown capability code under EV_REP: "@ + spec_decimal(code as nat) + "."@
}

/// The warning for repeat codes without repeat information.
pub open spec fn missing_repeat_warning() -> Seq<char> {
    "Internal error: an output device claims EV_REP capabilities, but no repeat info is available."@
}

/// What becomes of a code: an axis needs its information, a repeat code takes the delay or
/// the period of the repeat information, and every other code is enabled as it is.
pub open spec fn code_outcome(caps: Capabilities, code: EventCode) -> SetupOutcome {
    if code.ev_type.value == EV_ABS {
        match caps.axis(code) {
            Some(info) => SetupOutcome::Setup(CodeSetup::Axis(code, info)),
            None => SetupOutcome::Missing,
        }
    } else if code.ev_type.value == EV_REP {
        match caps.rep_spec() {
            Some(rep) => if code.code == REP_DELAY {
                SetupOutcome::Setup(CodeSetup::Repeat(code, rep.delay))
            } else if code.code == REP_PERIOD {
                SetupOutcome::Setup(CodeSetup::Repeat(code, rep.period))
            } else {
                SetupOutcome::Skipped(unknown_repeat_warning(code.code))
            },
            None => SetupOutcome::Skipped(missing_repeat_warning()),
        }
    } else {
        SetupOutcome::Setup(CodeSetup::Plain(code))
    }
}

/// The setups and the warnings for the codes, in order, or None if a code cannot be set up.
pub open spec fn spec_setups(caps: Capabilities, codes: Seq<EventCode>) -> Option<(Seq<CodeSetup>, Seq<Seq<char>>)>
    decreases codes.len(),
{
    if codes.len() == 0 {
        Some((Seq::empty(), Seq::empty()))
    } else {
        match spec_setups(caps, codes.drop_last()) {
            None => None,
            Some((setups, warnings)) => match code_outcome(caps, codes.last()) {
                SetupOutcome::Setup(setup) => Some((setups.push(setup), warnings)),
                SetupOutcome::Skipped(warning) => Some((setups, warnings.push(warning))),
                SetupOutcome::Missing => None,
            },
        }
    }
}

proof fn lemma_setups_none_extends(caps: Capabilities, codes: Seq<EventCode>, k: int)
    requires
        0 <= k <= codes.len(),
        spec_setups(caps, codes.take(k)) is None,
    ensures
        spec_setups(caps, codes) is None,
    decreases codes.len() - k,
{
    if k < codes.len() {
        assert(codes.take(k + 1).drop_last() == codes.take(k));
        lemma_setups_none_extends(caps, codes, k + 1);
    } else {
        assert(codes.take(k) == codes);
    }
}

/// How a new output device is set up: the event types to enable, the codes with what each
/// needs, and the warnings for the codes that are left out.
pub struct DeviceSetup {
    pub ev_types: Vec<EventType>,
    pub codes: Vec<CodeSetup>,
    pub warnings: Vec<String>,
}

/// Plans the setup of an output device with the given capabilities. Fails if an axis has no
/// information.
pub fn plan_device_setup(caps: &Capabilities) -> (res: Result<DeviceSetup, InternalError>)
    requires
        caps.well_formed(),
    ensures
        match res {
            Ok(setup) => {
                &&& setup.ev_types@ == type_list(caps.code_seq())
                &&& spec_setups(*caps, caps.code_seq()) == Some((setup.codes@, strings_view(setup.warnings@)))
            },
            Err(_) => spec_setups(*caps, caps.code_seq()) is None,
        },
{
    let ev_types = caps.ev_types();
    let codes = caps.codes();
    let rep = caps.rep_info();
    let mut setups: Vec<CodeSetup> = Vec::new();
    let mut warnings: Vec<String> = Vec::new();
    let mut i: usize = 0;
    proof {
        assert(codes@.take(0) =~= Seq::<EventCode>::empty());
        assert(strings_view(warnings@) =~= Seq::<Seq<char>>::empty());
    }
    while i < codes.len()
        invariant
            i <= codes@.len(),
            codes@ == caps.code_seq(),
            caps.well_formed(),
            rep == caps.rep_spec(),
            spec_setups(*caps, codes@.take(i as int)) == Some((setups@, strings_view(warnings@))),
        decreases codes@.len() - i,
    {
        let code = codes[i];
        proof {
            assert(codes@.take(i + 1).drop_last() == codes@.take(i as int));
            assert(codes@.take(i + 1).last() == code);
        }
        if code.ev_type.value == EV_ABS {
            match caps.get_axis(code) {
                Some(info) => setups.push(CodeSetup::Axis(code, info)),
                None => {
                    proof {
                        lemma_setups_none_extends(*caps, codes@, i + 1);
                    }
                    return Err(InternalError::new(join_strs(&[
                        "Cannot create uinput device: device has absolute axis without associated capabilities.",
                    ])));
                },
            }
        } else if code.ev_type.value == EV_REP {
            let ghost before = warnings@;
            match rep {
                Some(rep_info) => {
                    if code.code == REP_DELAY {
                        setups.push(CodeSetup::Repeat(code, rep_info.delay));
                    } else if code.code == REP_PERIOD {
                        setups.push(CodeSetup::Repeat(code, rep_info.period));
                    } else {
                        let number = decimal_chars(code.code as u64);
                        let number = string_from_chars(number.as_slice());
                        let warning = join_strs(&[
                            "Warning: encountered an unknown capability code under EV_REP: ", number.as_str(), ".",
                        ]);
                        proof {
                            reveal_with_fuel(crate::text::flatten_strs, 4);
                            assert(warning@ =~= unknown_repeat_warning(code.code));
                        }
                        warnings.push(warning);
                    }
                },
                None => {
                    let warning = join_strs(&[
                        "Internal error: an output device claims EV_REP capabilities, but no repeat info is available.",
                    ]);
                    proof {
                        reveal_with_fuel(crate::text::flatten_strs, 2);
                        assert(warning@ =~= missing_repeat_warning());
                    }
                    warnings.push(warning);
                },
            }
            proof {
                assert(strings_view(warnings@) =~= if warnings@.len() > before.len() {
                    strings_view(before).push(warnings@.last()@)
                } else {
                    strings_view(before)
                });
            }
        } else {
            setups.push(CodeSetup::Plain(code));
        }
        i += 1;
    }
    proof {
        assert(codes@.take(codes@.len() as int) == codes@);
    }
    Ok(DeviceSetup { ev_types, codes: setups, warnings })
}

/// What an output device keeps track of while events are written to it.
pub struct OutputWriteState {
    /// Whether an event was written since the last SYN event.
    should_syn: bool,
    /// If false, repeat events written to the device are dropped. This does not keep the kernel
    /// from generating repeat events.
    allows_repeat: bool,
}

/// Whether an event is written: repeated key events are dropped on devices that do not allow
/// repetition.
pub open spec fn is_written(allows_repeat: bool, ev_type: u16, value: i32) -> bool {
    !(!allows_repeat && ev_type == EV_KEY && value == 2)
}

impl OutputWriteState {
    pub closed spec fn should_syn_spec(&self) -> bool {
        self.should_syn
    }

    pub closed spec fn allows_repeat_spec(&self) -> bool {
        self.allows_repeat
    }

    pub fn new(allows_repeat: bool) -> (res: OutputWriteState)
        ensures
            !res.should_syn_spec(),
            res.allows_repeat_spec() == allows_repeat,
    {
        OutputWriteState { should_syn: false, allows_repeat }
    }

    /// Decides whether an event is written; one that is written owes a SYN event unless it is one.
    pub fn write(&mut self, ev_type: u16, value: i32) -> (res: bool)
        ensures
            res == is_written(old(self).allows_repeat_spec(), ev_type, value),
            final(self).allows_repeat_spec() == old(self).allows_repeat_spec(),
            final(self).should_syn_spec() == if res { ev_type != EV_SYN } else { old(self).should_syn_spec() },
    {
        if !self.allows_repeat && ev_type == EV_KEY && value == 2 {
            return false;
        }
        self.should_syn = ev_type != EV_SYN;
        true
    }

    /// Whether a SYN event is owed; if so, it counts as written.
    pub fn syn_if_required(&mut self) -> (res: bool)
        ensures
            res == old(self).should_syn_spec(),
            !final(self).should_syn_spec(),
            final(self).allows_repeat_spec() == old(self).allows_repeat_spec(),
    {
        if self.should_syn {
            self.write(EV_SYN, 0);
            true
        } else {
            false
        }
    }
}

} // verus!
