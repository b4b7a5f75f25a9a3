//! Where the index of a disc is cached: a directory named by a hash of the
//! disc's path, under the cache directory.

use vstd::prelude::*;
use vstd::string::StringExecFns;
use std::collections::hash_map::DefaultHasher;
use std::hash::Hasher;

verus! {

/// The lowercase hexadecimal digit of `d` (below 16).
pub open spec fn hex_char(d: nat) -> char {
    if d < 10 {
        ((d + 48) as u8) as char
    } else {
        ((d + 87) as u8) as char
    }
}

/// `x` in lowercase hexadecimal without leading zeros, as `{:x}` formats it.
pub open spec fn hex_spec(x: nat) -> Seq<char>
    decreases x,
{
    if x < 16 {
        seq![hex_char(x)]
    } else {
        hex_spec(x / 16) + seq![hex_char(x % 16)]
    }
}

/// A path separator on some platform: `/` everywhere, `\` on Windows too.
pub open spec fn is_separator(c: char) -> bool {
    c == '/' || c == '\\'
}

/// `r` is `name` below directory `dir`: `dir`, one separator, `name`.
/// Which separator it is, is the platform's.
pub open spec fn joined(dir: Seq<char>, name: Seq<char>, r: Seq<char>) -> bool {
    &&& r.len() == dir.len() + 1 + name.len()
    &&& r.subrange(0, dir.len() as int) == dir
    &&& is_separator(r[dir.len() as int])
    &&& r.subrange(dir.len() + 1int, r.len() as int) == name
}

/// A directory path that `joined` describes joining on, on every
/// platform: non-empty, not starting with a backslash (a Windows verbatim
/// or UNC prefix), not ending in a separator or a colon (a bare Windows
/// drive).
pub open spec fn plain_dir(dir: Seq<char>) -> bool {
    &&& dir.len() > 0
    &&& dir[0] != '\\'
    &&& !is_separator(dir.last())
    &&& dir.last() != ':'
}

/// A single relative path component on every platform: non-empty, with
/// no separator and no colon (a Windows drive prefix).
pub open spec fn plain_name(name: Seq<char>) -> bool {
    name.len() > 0 && !name.contains('/') && !name.contains('\\') && !name.contains(':')
}

/// `std::path::Path::join` of the relative one-component path `name` onto
/// `base`, as a string. Its documentation shows a relative path appended
/// after the platform's main separator (`/`, or `\` on Windows); for a
/// `plain_dir` base and a `plain_name` name the contract states the
/// result, with the separator left to the platform. Of other bases (a
/// trailing separator, a bare drive, a verbatim prefix) it states nothing.
#[verifier::external_body]
fn path_join(base: &str, name: &str) -> (r: String)
    ensures
        plain_dir(base@) && plain_name(name@) ==> joined(base@, name@, r@),
{
    std::path::Path::new(base).join(name).to_string_lossy().into_owned()
}

/// `Hash::hash` of the path `a` into `state`. What `Path`'s hashing
/// writes into the hasher is documented nowhere, and it differs between
/// machines (Windows takes backslashes as separators too, and the count
/// of hashed bytes goes in as a `usize`, four or eight bytes wide): the
/// contract leaves the hasher's new state open.
#[verifier::external_body]
fn hash_path(a: &str, state: &mut DefaultHasher) {
    std::hash::Hash::hash(std::path::Path::new(a), state)
}

/// `Hash::hash` of the string `s` into `state`. What `str`'s hashing
/// writes into the hasher is not documented: the contract leaves the
/// hasher's new state open.
#[verifier::external_body]
fn hash_str(s: &str, state: &mut DefaultHasher) {
    std::hash::Hash::hash(s, state)
}

/// The lowercase hexadecimal digit of `d`.
fn hex_digit(d: u64) -> (r: &'static str)
    requires
        d < 16,
    ensures
        r@ == seq![hex_char(d as nat)],
{
    proof {
        reveal_strlit("0");
        reveal_strlit("1");
        reveal_strlit("2");
        reveal_strlit("3");
        reveal_strlit("4");
        reveal_strlit("5");
        reveal_strlit("6");
        reveal_strlit("7");
        reveal_strlit("8");
        reveal_strlit("9");
        reveal_strlit("a");
        reveal_strlit("b");
        reveal_strlit("c");
        reveal_strlit("d");
        reveal_strlit("e");
        reveal_strlit("f");
    }
    match d {
        0 => "0",
        1 => "1",
        2 => "2",
        3 => "3",
        4 => "4",
        5 => "5",
        6 => "6",
        7 => "7",
        8 => "8",
        9 => "9",
        10 => "a",
        11 => "b",
        12 => "c",
        13 => "d",
        14 => "e",
        _ => "f",
    }
}

/// `x` in lowercase hexadecimal, as `hex_spec` says.
pub fn lower_hex(x: u64) -> (r: String)
    ensures
        r@ == hex_spec(x as nat),
    decreases x,
{
    if x < 16 {
        let mut s = String::new();
        s.append(hex_digit(x));
        proof {
            assert(s@ =~= seq![hex_char(x as nat)]);
        }
        s
    } else {
        let mut s = lower_hex(x / 16);
        s.append(hex_digit(x % 16));
        s
    }
}

/// The directory of the cached index of the disc whose path hashes to
/// `hash`, under the cache directory `md`.
pub fn index_dir(md: &str, hash: u64) -> (r: String)
    ensures
        plain_dir(md@) ==> joined(md@, hex_spec(hash as nat), r@),
{
    let name = lower_hex(hash);
    proof {
        lemma_hex_plain(hash as nat);
    }
    path_join(md, name.as_str())
}

/// Hexadecimal digits make a single plain path component.
proof fn lemma_hex_plain(x: nat)
    ensures
        plain_name(hex_spec(x)),
    decreases x,
{
    if x >= 16 {
        lemma_hex_plain(x / 16);
        let a = hex_spec(x / 16);
        let b = seq![hex_char(x % 16)];
        assert forall|i: int| 0 <= i < (a + b).len() implies
            (a + b)[i] != '/' && (a + b)[i] != '\\' && (a + b)[i] != ':' by {
            if i < a.len() {
                assert((a + b)[i] == a[i]);
            } else {
                assert((a + b)[i] == b[i - a.len()]);
            }
        }
    } else {
        let c = seq![hex_char(x)];
        assert(c[0] != '/' && c[0] != '\\' && c[0] != ':');
    }
}

/// The cache of disc indexes, under the directory `md`.
pub struct IndexManager {
    md: String,
}

impl View for IndexManager {
    type V = Seq<char>;

    closed spec fn view(&self) -> Seq<char> {
        self.md@
    }
}

impl IndexManager {
    /// The cache under directory `md`.
    pub fn with_dir(md: String) -> (r: IndexManager)
        ensures
            r@ == md@,
    {
        IndexManager { md }
    }

    /// The directory of the cached index of the disc at `a`: a subdirectory
    /// of the cache named by the lowercase hexadecimal `DefaultHasher`
    /// hash of the path followed by the index format's version tag. Which
    /// 64-bit value that hash is depends on the machine (see `hash_path`),
    /// so the contract states the name for some hash; `index_dir` states it
    /// for each.
    pub fn get_dir(&self, a: &str) -> (r: String)
        ensures
            plain_dir(self@) ==> exists|h: u64| joined(self@, #[trigger] hex_spec(h as nat), r@),
    {
        let mut hasher = DefaultHasher::new();
        hash_path(a, &mut hasher);
        hash_str("version0", &mut hasher);
        let h = hasher.finish();
        let r = index_dir(self.md.as_str(), h);
        r
    }
}

} // verus!
