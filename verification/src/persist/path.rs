//! Names under which the data of a device is stored.

use vstd::prelude::*;

verus! {

/// How one byte of a device path is written in a storage name: a slash becomes an underscore,
/// and an underscore or a backslash gets a backslash before it.
pub open spec fn escape_byte(b: u8) -> Seq<u8> {
    if b == 0x2f {
        seq![0x5fu8]
    } else if b == 0x5f {
        seq![0x5cu8, 0x5fu8]
    } else if b == 0x5c {
        seq![0x5cu8, 0x5cu8]
    } else {
        seq![b]
    }
}

/// The storage name of a device path: each byte escaped, in order.
pub open spec fn storage_name(path: Seq<u8>) -> Seq<u8>
    decreases path.len(),
{
    if path.len() == 0 {
        Seq::empty()
    } else {
        escape_byte(path[0]) + storage_name(path.drop_first())
    }
}

proof fn lemma_storage_name_push(path: Seq<u8>, b: u8)
    ensures
        storage_name(path.push(b)) == storage_name(path) + escape_byte(b),
    decreases path.len(),
{
    if path.len() == 0 {
        assert(path.push(b).drop_first() == Seq::<u8>::empty());
        assert(path.push(b)[0] == b);
        assert(storage_name(Seq::<u8>::empty()) == Seq::<u8>::empty());
        assert(storage_name(path) == Seq::<u8>::empty());
        assert(escape_byte(b) + Seq::<u8>::empty() == escape_byte(b));
        assert(Seq::<u8>::empty() + escape_byte(b) == escape_byte(b));
    } else {
        assert(path.push(b).drop_first() == path.drop_first().push(b));
        lemma_storage_name_push(path.drop_first(), b);
        assert(path.push(b)[0] == path[0]);
        let e = escape_byte(path[0]);
        let r = storage_name(path.drop_first());
        assert(e + (r + escape_byte(b)) == (e + r) + escape_byte(b));
    }
}

/// Turns the path of a device into a name under which its data can be stored: a name without
/// slashes, from which the path can be read back.
pub fn device_path_to_storage_name(device_path: &[u8]) -> (res: Vec<u8>)
    ensures
        res@ == storage_name(device_path@),
{
    let mut result: Vec<u8> = Vec::new();
    let mut i: usize = 0;
    while i < device_path.len()
        invariant
            i <= device_path@.len(),
            result@ == storage_name(device_path@.take(i as int)),
        decreases device_path@.len() - i,
    {
        let byte = device_path[i];
        proof {
            assert(device_path@.take(i + 1) == device_path@.take(i as int).push(byte));
            lemma_storage_name_push(device_path@.take(i as int), byte);
        }
        if byte == 0x2f {
            result.push(0x5f);
        } else if byte == 0x5f {
            result.push(0x5c);
            result.push(0x5f);
        } else if byte == 0x5c {
            result.push(0x5c);
            result.push(0x5c);
        } else {
            result.push(byte);
        }
        i += 1;
    }
    proof {
        assert(device_path@.take(device_path@.len() as int) == device_path@);
    }
    result
}

/// A storage name holds no slash.
pub proof fn lemma_storage_name_has_no_slash(path: Seq<u8>)
    ensures
        !storage_name(path).contains(0x2fu8),
    decreases path.len(),
{
    if path.len() > 0 {
        lemma_storage_name_has_no_slash(path.drop_first());
        let e = escape_byte(path[0]);
        let r = storage_name(path.drop_first());
        assert forall|i: int| 0 <= i < (e + r).len() implies (e + r)[i] != 0x2fu8 by {
            if i >= e.len() {
                assert((e + r)[i] == r[i - e.len()]);
            }
        }
    }
}

/// Two device paths with the same storage name are the same path.
pub proof fn lemma_storage_name_injective(a: Seq<u8>, b: Seq<u8>)
    requires
        storage_name(a) == storage_name(b),
    ensures
        a == b,
    decreases a.len(),
{
    if a.len() == 0 {
        if b.len() > 0 {
            assert(storage_name(b).len() >= 1);
        }
    } else if b.len() == 0 {
        assert(storage_name(a).len() >= 1);
    } else {
        let ea = escape_byte(a[0]);
        let eb = escape_byte(b[0]);
        let ra = storage_name(a.drop_first());
        let rb = storage_name(b.drop_first());
        assert((ea + ra)[0] == ea[0]);
        assert((eb + rb)[0] == eb[0]);
        if ea.len() == 2 {
            assert((ea + ra)[1] == ea[1]);
        }
        if eb.len() == 2 {
            assert((eb + rb)[1] == eb[1]);
        }
        if ea.len() == 2 && eb.len() == 1 {
            assert(rb.len() >= 1 || (eb + rb).len() == 1);
        }
        assert(a[0] == b[0]);
        assert(ra == (ea + ra).skip(ea.len() as int));
        assert(rb == (eb + rb).skip(eb.len() as int));
        lemma_storage_name_injective(a.drop_first(), b.drop_first());
        assert(a == seq![a[0]] + a.drop_first());
        assert(b == seq![b[0]] + b.drop_first());
    }
}

} // verus!
