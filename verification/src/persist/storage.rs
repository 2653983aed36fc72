//! The cache of the capabilities of input devices.

use vstd::prelude::*;

use crate::capability::{equivalent_caps, Capabilities};
use crate::persist::format::{decode, holds_decoded, spec_decode};
use crate::text::string_from_chars;

verus! {

/// What the cache file of a device said.
pub enum CachedCapabilities {
    /// The file holds these capabilities.
    Known(Capabilities),
    /// There is no file.
    NonExistent,
    /// There is a file, but it is not in the format.
    Corrupted,
}

/// Why no place to store the cache could be found.
#[derive(Clone, Copy, PartialEq, Eq, Debug, Structural)]
pub enum StorageError {
    /// The environment does not say where the state directory is.
    CouldNotFindStateDirectory,
}

/// Which setting of the environment names the state directory.
#[derive(Clone, Copy, PartialEq, Eq, Debug, Structural)]
pub enum StateDirectory {
    /// `$EVSIEVE_STATE_DIR` itself.
    Explicit,
    /// `/var/lib/evsieve`, for the superuser.
    System,
    /// `evsieve` under `$XDG_STATE_HOME`.
    XdgStateHome,
    /// `.local/state/evsieve` under `$HOME`.
    Home,
}

/// Chooses the state directory from what the environment holds: `$EVSIEVE_STATE_DIR` first, then
/// the system directory when running as root, then `$XDG_STATE_HOME`, then `$HOME`.
pub fn choose_state_directory(has_state_dir: bool, is_root: bool, has_xdg_state_home: bool, has_home: bool) -> (res:
    Result<StateDirectory, StorageError>)
    ensures
        res == (if has_state_dir {
            Ok(StateDirectory::Explicit)
        } else if is_root {
            Ok(StateDirectory::System)
        } else if has_xdg_state_home {
            Ok(StateDirectory::XdgStateHome)
        } else if has_home {
            Ok(StateDirectory::Home)
        } else {
            Err(StorageError::CouldNotFindStateDirectory)
        }),
{
    if has_state_dir {
        Ok(StateDirectory::Explicit)
    } else if is_root {
        Ok(StateDirectory::System)
    } else if has_xdg_state_home {
        Ok(StateDirectory::XdgStateHome)
    } else if has_home {
        Ok(StateDirectory::Home)
    } else {
        Err(StorageError::CouldNotFindStateDirectory)
    }
}

/// Where the capabilities of a device are cached, and what the file said when it was read.
pub struct DeviceCache {
    pub location: String,
    pub content: CachedCapabilities,
}

/// What to do with the cache after the capabilities of its device have been read.
#[derive(Clone, Copy, PartialEq, Eq, Debug, Structural)]
pub enum CacheUpdate {
    /// The cache already holds equivalent capabilities.
    Keep,
    /// There was no usable cache: write one.
    Write,
    /// The cache held other capabilities: tell the user, and write it anew.
    Replace,
}

impl DeviceCache {
    pub open spec fn well_formed(&self) -> bool {
        self.content matches CachedCapabilities::Known(k) ==> k.well_formed()
    }

    /// Compares the capabilities that were just read from the device with the cache. The cache
    /// file is to be written unless it holds equivalent capabilities already.
    pub fn update_decision(&self, caps: &Capabilities) -> (res: CacheUpdate)
        requires
            self.well_formed(),
            caps.well_formed(),
        ensures
            res == (match self.content {
                CachedCapabilities::Known(k) => if equivalent_caps(k, *caps) {
                    CacheUpdate::Keep
                } else {
                    CacheUpdate::Replace
                },
                _ => CacheUpdate::Write,
            }),
    {
        match &self.content {
            CachedCapabilities::Known(known) => {
                if known.is_equivalent_to(caps) {
                    CacheUpdate::Keep
                } else {
                    CacheUpdate::Replace
                }
            },
            _ => CacheUpdate::Write,
        }
    }
}

/// Interprets what was read from a cache file: `None` if there was no file.
pub fn cached_capabilities_from_file(data: Option<&[u8]>) -> (res: CachedCapabilities)
    ensures
        match data {
            None => res is NonExistent,
            Some(d) => match spec_decode(d@) {
                Some(view) => res matches CachedCapabilities::Known(k) && k.well_formed() && holds_decoded(k, view),
                None => res is Corrupted,
            },
        },
{
    match data {
        None => CachedCapabilities::NonExistent,
        Some(bytes) => match decode(bytes) {
            Ok(caps) => CachedCapabilities::Known(caps),
            Err(_) => CachedCapabilities::Corrupted,
        },
    }
}

/// How one character of a device path is written in the name of its cache file: a backslash or
/// a dot gets a backslash before it, and a slash becomes a dot.
pub open spec fn escape_char(c: char) -> Seq<char> {
    if c == '\\' {
        seq!['\\', '\\']
    } else if c == '.' {
        seq!['\\', '.']
    } else if c == '/' {
        seq!['.']
    } else {
        seq![c]
    }
}

pub open spec fn escape_chars(s: Seq<char>) -> Seq<char>
    decreases s.len(),
{
    if s.len() == 0 {
        Seq::empty()
    } else {
        escape_char(s[0]) + escape_chars(s.drop_first())
    }
}

/// A path without the slashes at its start.
pub open spec fn trim_leading_slashes(s: Seq<char>) -> Seq<char>
    decreases s.len(),
{
    if s.len() > 0 && s[0] == '/' {
        trim_leading_slashes(s.drop_first())
    } else {
        s
    }
}

/// The name of the cache file of a device whose path is valid UTF-8.
pub open spec fn spec_encode_path(path: Seq<char>) -> Seq<char> {
    escape_chars(trim_leading_slashes(path))
}

proof fn lemma_escape_chars_push(s: Seq<char>, c: char)
    ensures
        escape_chars(s.push(c)) == escape_chars(s) + escape_char(c),
    decreases s.len(),
{
    if s.len() == 0 {
        assert(s.push(c).drop_first() == Seq::<char>::empty());
        assert(s.push(c)[0] == c);
        assert(escape_chars(Seq::<char>::empty()) == Seq::<char>::empty());
        assert(escape_chars(s) == Seq::<char>::empty());
        assert(escape_char(c) + Seq::<char>::empty() == escape_char(c));
        assert(Seq::<char>::empty() + escape_char(c) == escape_char(c));
    } else {
        assert(s.push(c).drop_first() == s.drop_first().push(c));
        lemma_escape_chars_push(s.drop_first(), c);
        assert(s.push(c)[0] == s[0]);
        let e = escape_char(s[0]);
        let r = escape_chars(s.drop_first());
        assert(e + (r + escape_char(c)) == (e + r) + escape_char(c));
    }
}

/// The name of the cache file of a device whose path is valid UTF-8: the path without its leading
/// slashes, escaped so that it holds no slash.
pub fn encode_path_for_device(device_path: &str) -> (res: String)
    ensures
        res@ == spec_encode_path(device_path@),
{
    let chars = crate::text::chars_of(device_path);
    let mut start: usize = 0;
    proof {
        assert(chars@.skip(0) == chars@);
    }
    while start < chars.len() && chars[start] == '/'
        invariant
            start <= chars@.len(),
            trim_leading_slashes(chars@.skip(start as int)) == trim_leading_slashes(chars@),
        decreases chars@.len() - start,
    {
        proof {
            assert(chars@.skip(start as int).drop_first() == chars@.skip(start + 1));
        }
        start += 1;
    }
    let ghost rest = chars@.skip(start as int);
    proof {
        assert(trim_leading_slashes(rest) == rest);
    }
    let mut out: Vec<char> = Vec::new();
    let mut i: usize = start;
    while i < chars.len()
        invariant
            start <= i <= chars@.len(),
            rest == chars@.skip(start as int),
            out@ == escape_chars(rest.take(i - start)),
        decreases chars@.len() - i,
    {
        let c = chars[i];
        proof {
            assert(rest.take(i + 1 - start) == rest.take(i - start).push(c));
            lemma_escape_chars_push(rest.take(i - start), c);
        }
        if c == '\\' {
            out.push('\\');
            out.push('\\');
        } else if c == '.' {
            out.push('\\');
            out.push('.');
        } else if c == '/' {
            out.push('.');
        } else {
            out.push(c);
        }
        i += 1;
    }
    proof {
        assert(rest.take(rest.len() as int) == rest);
    }
    string_from_chars(&out)
}

/// The hexadecimal digit of a number below sixteen, in upper case.
pub open spec fn hex_digit(n: u8) -> char {
    if n < 10 {
        (('0' as u8) + n) as char
    } else {
        (('A' as u8) + n - 10) as char
    }
}

fn hex_digit_exec(n: u8) -> (res: char)
    requires
        n < 16,
    ensures
        res == hex_digit(n),
{
    if n < 10 {
        ((48u8 + n) as char)
    } else {
        ((55u8 + n) as char)
    }
}

/// How a byte of a path that is not valid UTF-8 is written: a backslash, the letter b and two
/// hexadecimal digits.
pub open spec fn raw_byte_code(b: u8) -> Seq<char> {
    seq!['\\', 'b', hex_digit(b / 16), hex_digit(b % 16)]
}

pub open spec fn raw_path_code(path: Seq<u8>) -> Seq<char>
    decreases path.len(),
{
    if path.len() == 0 {
        Seq::empty()
    } else {
        raw_path_code(path.drop_last()) + raw_byte_code(path.last())
    }
}

/// The name of the cache file of a device whose path is not valid UTF-8: each of its bytes in
/// hexadecimal.
pub fn encode_raw_path_for_device(device_path: &[u8]) -> (res: String)
    ensures
        res@ == raw_path_code(device_path@),
{
    let mut out: Vec<char> = Vec::new();
    let mut i: usize = 0;
    while i < device_path.len()
        invariant
            i <= device_path@.len(),
            out@ == raw_path_code(device_path@.take(i as int)),
        decreases device_path@.len() - i,
    {
        let b = device_path[i];
        proof {
            assert(device_path@.take(i + 1).drop_last() == device_path@.take(i as int));
            assert(device_path@.take(i + 1).last() == b);
        }
        out.push('\\');
        out.push('b');
        out.push(hex_digit_exec(b / 16));
        out.push(hex_digit_exec(b % 16));
        proof {
            assert(out@ == raw_path_code(device_path@.take(i as int)) + raw_byte_code(b));
        }
        i += 1;
    }
    proof {
        assert(device_path@.take(device_path@.len() as int) == device_path@);
    }
    string_from_chars(&out)
}

/// The name of a cache file holds no slash.
pub proof fn lemma_encoded_path_has_no_slash(path: Seq<char>)
    ensures
        !spec_encode_path(path).contains('/'),
{
    lemma_escape_chars_has_no_slash(trim_leading_slashes(path));
}

proof fn lemma_escape_chars_has_no_slash(s: Seq<char>)
    ensures
        !escape_chars(s).contains('/'),
    decreases s.len(),
{
    if s.len() > 0 {
        lemma_escape_chars_has_no_slash(s.drop_first());
        let e = escape_char(s[0]);
        let r = escape_chars(s.drop_first());
        assert forall|i: int| 0 <= i < (e + r).len() implies (e + r)[i] != '/' by {
            if i >= e.len() {
                assert((e + r)[i] == r[i - e.len()]);
            }
        }
    }
}

/// Escaping loses nothing: two texts that escape alike are the same.
pub proof fn lemma_escape_chars_injective(a: Seq<char>, b: Seq<char>)
    requires
        escape_chars(a) == escape_chars(b),
    ensures
        a == b,
    decreases a.len(),
{
    if a.len() == 0 {
        if b.len() > 0 {
            assert(escape_chars(b).len() >= 1);
        }
    } else if b.len() == 0 {
        assert(escape_chars(a).len() >= 1);
    } else {
        let ea = escape_char(a[0]);
        let eb = escape_char(b[0]);
        let ra = escape_chars(a.drop_first());
        let rb = escape_chars(b.drop_first());
        assert((ea + ra)[0] == ea[0]);
        assert((eb + rb)[0] == eb[0]);
        if ea.len() == 2 {
            assert((ea + ra)[1] == ea[1]);
        }
        if eb.len() == 2 {
            assert((eb + rb)[1] == eb[1]);
        }
        assert(a[0] == b[0]);
        assert(ra == (ea + ra).skip(ea.len() as int));
        assert(rb == (eb + rb).skip(eb.len() as int));
        lemma_escape_chars_injective(a.drop_first(), b.drop_first());
        assert(a == seq![a[0]] + a.drop_first());
        assert(b == seq![b[0]] + b.drop_first());
    }
}

/// Two device paths that start with a single slash, as device paths do, get the same cache file
/// only if they are the same path.
pub proof fn lemma_encode_path_injective(a: Seq<char>, b: Seq<char>)
    requires
        a.len() >= 1 && a[0] == '/' && (a.len() == 1 || a[1] != '/'),
        b.len() >= 1 && b[0] == '/' && (b.len() == 1 || b[1] != '/'),
        spec_encode_path(a) == spec_encode_path(b),
    ensures
        a == b,
{
    if a.len() > 1 {
        assert(a.drop_first()[0] == a[1]);
    }
    if b.len() > 1 {
        assert(b.drop_first()[0] == b[1]);
    }
    assert(trim_leading_slashes(a.drop_first()) == a.drop_first());
    assert(trim_leading_slashes(b.drop_first()) == b.drop_first());
    assert(trim_leading_slashes(a) == a.drop_first());
    assert(trim_leading_slashes(b) == b.drop_first());
    lemma_escape_chars_injective(a.drop_first(), b.drop_first());
    assert(a == seq![a[0]] + a.drop_first());
    assert(b == seq![b[0]] + b.drop_first());
}

} // verus!
