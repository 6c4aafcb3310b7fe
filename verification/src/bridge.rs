//! Settings of the Java parser bridge and of the AST cache.

use vstd::prelude::*;
use std::collections::hash_map::DefaultHasher;
use std::hash::{BuildHasher, BuildHasherDefault};
use crate::text::{append_str, chars_of, string_of, usize_to_string, decimal};

verus! {

broadcast use vstd::string::group_string_axioms;

/// Start-up options of a resident parser JVM: class-data sharing, the C1
/// compiler only, and a fixed heap.
pub const DAEMON_JVM_ARGS: [&'static str; 4] = ["-Xshare:auto", "-XX:TieredStopAtLevel=1", "-Xms32m", "-Xmx512m"];

/// How many resident parsers a pool starts: at least one, at most sixteen.
pub fn daemon_pool_size(size: usize) -> (r: usize)
    ensures
        r == if size < 1 {
            1
        } else if size > 16 {
            16
        } else {
            size
        },
{
    if size < 1 {
        1
    } else if size > 16 {
        16
    } else {
        size
    }
}

/// How many parsers a scan of `n_files` files starts: the available
/// parallelism (4 where unknown), at most 4 and at most one per file, and at
/// least one.
pub fn parser_pool_size(parallelism: Option<usize>, n_files: usize) -> (r: usize)
    ensures
        r >= 1,
        r <= 4,
        r == {
            let p = match parallelism {
                Some(p) => p,
                None => 4,
            };
            let a = if p < 4 { p } else { 4 };
            let b = if a < n_files { a } else { n_files };
            if b < 1 { 1 } else { b }
        },
{
    let p = match parallelism {
        Some(p) => p,
        None => 4,
    };
    let a = if p < 4 { p } else { 4 };
    let b = if a < n_files { a } else { n_files };
    if b < 1 { 1 } else { b }
}

/// How many worker threads check the files of a scan: the available
/// parallelism (4 where unknown), at most one per file and at most 8, and at
/// least one.
pub fn scan_worker_count(parallelism: Option<usize>, n_files: usize) -> (r: usize)
    ensures
        1 <= r <= 8,
        r == {
            let p = match parallelism {
                Some(p) => p,
                None => 4,
            };
            let a = if p < n_files { p } else { n_files };
            let b = if a < 8 { a } else { 8 };
            if b < 1 { 1 } else { b }
        },
{
    let p = match parallelism {
        Some(p) => p,
        None => 4,
    };
    let a = if p < n_files { p } else { n_files };
    let b = if a < 8 { a } else { 8 };
    if b < 1 { 1 } else { b }
}

/// Single-shot parser: runs `java -jar <jar>` once per file.
#[derive(Debug)]
pub struct CliParser {
    jar_path: String,
    java_cmd: String,
}

impl CliParser {
    /// A parser using the jar at `jar_path` and the Java command `java_cmd`
    /// (the value of `JAVA_CMD` where it is set), else `java`.
    pub fn new(jar_path: &str, java_cmd: Option<String>) -> (r: Self)
        ensures
            r.jar_view() == jar_path@,
            r.cmd_view() == match java_cmd {
                Some(c) => c@,
                None => "java"@,
            },
    {
        let cmd = match java_cmd {
            Some(c) => c,
            None => String::from_str("java"),
        };
        CliParser { jar_path: String::from_str(jar_path), java_cmd: cmd }
    }

    /// The same parser with another Java command.
    pub fn with_java_cmd(self, cmd: &str) -> (r: Self)
        ensures
            r.jar_view() == self.jar_view(),
            r.cmd_view() == cmd@,
    {
        CliParser { jar_path: self.jar_path, java_cmd: String::from_str(cmd) }
    }

    /// The parser jar, as characters.
    pub closed spec fn jar_view(&self) -> Seq<char> {
        self.jar_path@
    }

    /// The Java command, as characters.
    pub closed spec fn cmd_view(&self) -> Seq<char> {
        self.java_cmd@
    }

    /// The parser jar.
    pub fn jar_path(&self) -> (r: &str)
        ensures
            r@ == self.jar_view(),
    {
        self.jar_path.as_str()
    }

    /// The Java command.
    pub fn java_cmd(&self) -> (r: &str)
        ensures
            r@ == self.cmd_view(),
    {
        self.java_cmd.as_str()
    }
}

/// `a` joined with the relative path `b` by one `/`.
pub open spec fn join_path(a: Seq<char>, b: Seq<char>) -> Seq<char> {
    if a.len() == 0 {
        b
    } else if a.last() == '/' {
        a + b
    } else {
        a + seq!['/'] + b
    }
}

/// Executable [`join_path`].
pub fn path_join(a: &str, b: &str) -> (r: String)
    ensures
        r@ == join_path(a@, b@),
{
    let ac = chars_of(a);
    let mut s = String::from_str(a);
    if ac.len() > 0 && ac[ac.len() - 1] != '/' {
        append_str(&mut s, "/");
        proof {
            reveal_strlit("/");
        }
    }
    append_str(&mut s, b);
    s
}

/// The lower-case hexadecimal digits of `n`, padded with zeros to sixteen.
pub open spec fn hex16(n: u64) -> Seq<char>
    decreases 16nat,
{
    hex_digits(n as nat, 16)
}

/// The last `k` hexadecimal digits of `n`, most significant first.
pub open spec fn hex_digits(n: nat, k: nat) -> Seq<char>
    decreases k,
{
    if k == 0 {
        Seq::empty()
    } else {
        hex_digits(n / 16, (k - 1) as nat).push(hex_char(n % 16))
    }
}

/// The lower-case hexadecimal digit for `d < 16`.
pub open spec fn hex_char(d: nat) -> char {
    if d < 10 {
        ((d + 48) as u8) as char
    } else {
        ((d + 87) as u8) as char
    }
}

/// The file name under which the AST of a source of `len` characters whose
/// content hash is `hash` is cached.
pub open spec fn entry_name(len: nat, hash: u64) -> Seq<char> {
    decimal(len) + seq!['-'] + hex16(hash) + ".json"@
}

/// Sixteen lower-case hexadecimal digits of `n`.
fn hex_string(n: u64) -> (r: String)
    ensures
        r@ == hex16(n),
{
    let mut digits: Vec<char> = Vec::new();
    let mut m: u64 = n;
    let mut k: usize = 0;
    while k < 16
        invariant
            k <= 16,
            digits@.len() == k,
            hex_digits(n as nat, 16) == hex_digits(m as nat, (16 - k) as nat) + digits@,
        decreases 16 - k,
    {
        let d = m % 16;
        let c: char = if d < 10 {
            ((d as u8) + 48) as char
        } else {
            ((d as u8) + 87) as char
        };
        assert(c == hex_char((m as nat) % 16));
        let ghost old_digits = digits@;
        digits.insert(0, c);
        assert(digits@ == seq![c] + old_digits);
        assert(hex_digits(m as nat, (16 - k) as nat) == hex_digits((m / 16) as nat, (16 - k - 1) as nat).push(c));
        assert(hex_digits((m / 16) as nat, (16 - k - 1) as nat).push(c) + old_digits == hex_digits((m / 16) as nat, (16 - k - 1) as nat) + digits@);
        m = m / 16;
        k += 1;
    }
    assert(hex_digits(m as nat, 0) == Seq::<char>::empty());
    assert(digits@ == hex16(n));
    string_of(digits.as_slice())
}

/// Bytes of the UTF-8 encoding of `c`.
pub open spec fn utf8_width(c: char) -> nat {
    let u = c as u32;
    if u < 0x80 {
        1
    } else if u < 0x800 {
        2
    } else if u < 0x10000 {
        3
    } else {
        4
    }
}

/// Bytes of the UTF-8 encoding of `s`.
pub open spec fn utf8_size(s: Seq<char>) -> nat
    decreases s.len(),
{
    if s.len() == 0 {
        0
    } else {
        utf8_size(s.drop_last()) + utf8_width(s.last())
    }
}

/// Length of a string in bytes.
///
/// Trusted: `str::len`, which std documents as the length in bytes of the
/// string's UTF-8 encoding.
#[verifier::external_body]
fn byte_len(s: &str) -> (r: usize)
    ensures
        r == utf8_size(s@),
{
    s.len()
}

/// The content hash of a source text.
///
/// Trusted: `BuildHasher::hash_one` with std's `DefaultHasher` (the text's
/// `Hash` fed to a fresh hasher, then finished). Nothing is stated of the
/// value: std does not fix the hash algorithm across releases.
#[verifier::external_body]
fn content_hash(source: &str) -> u64 {
    BuildHasherDefault::<DefaultHasher>::default().hash_one(source)
}

/// Where ASTs of parsed sources are cached, keyed by content.
#[derive(Debug)]
pub struct AstCache {
    dir: String,
    enabled: bool,
    parser_version: String,
}

impl AstCache {
    /// A cache in `.java-guard-cache` under the working directory `cwd`
    /// (`.` where it is unknown). `parser_version` invalidates the cache when
    /// the parser changes.
    pub fn new(enabled: bool, parser_version: &str, cwd: Option<&str>) -> (r: Self)
        ensures
            r.dir_view() == join_path(
                match cwd {
                    Some(c) => c@,
                    None => "."@,
                },
                ".java-guard-cache"@,
            ),
            r.enabled_view() == enabled,
            r.version_view() == parser_version@,
    {
        let base: &str = match cwd {
            Some(c) => c,
            None => ".",
        };
        let dir = path_join(base, ".java-guard-cache");
        AstCache { dir, enabled, parser_version: String::from_str(parser_version) }
    }

    /// The same cache in another directory.
    pub fn with_dir(self, dir: &str) -> (r: Self)
        ensures
            r.dir_view() == dir@,
            r.enabled_view() == self.enabled_view(),
            r.version_view() == self.version_view(),
    {
        AstCache { dir: String::from_str(dir), enabled: self.enabled, parser_version: self.parser_version }
    }

    /// The cache directory, as characters.
    pub closed spec fn dir_view(&self) -> Seq<char> {
        self.dir@
    }

    /// Whether the cache is used.
    pub closed spec fn enabled_view(&self) -> bool {
        self.enabled
    }

    /// The parser version, as characters.
    pub closed spec fn version_view(&self) -> Seq<char> {
        self.parser_version@
    }

    /// The cache directory.
    pub fn dir(&self) -> (r: &str)
        ensures
            r@ == self.dir_view(),
    {
        self.dir.as_str()
    }

    /// Whether the cache is used.
    pub fn enabled(&self) -> (r: bool)
        ensures
            r == self.enabled_view(),
    {
        self.enabled
    }

    /// The parser version it was made for.
    pub fn parser_version(&self) -> (r: &str)
        ensures
            r@ == self.version_view(),
    {
        self.parser_version.as_str()
    }

    /// The cache file of a source of `len` bytes with content hash
    /// `hash`.
    pub fn entry_path(&self, len: usize, hash: u64) -> (r: String)
        ensures
            r@ == join_path(self.dir_view(), entry_name(len as nat, hash)),
    {
        let mut name = usize_to_string(len);
        append_str(&mut name, "-");
        let h = hex_string(hash);
        append_str(&mut name, h.as_str());
        append_str(&mut name, ".json");
        proof {
            reveal_strlit("-");
        }
        path_join(self.dir.as_str(), name.as_str())
    }

    /// The cache file of `source`: named by its length in bytes and its
    /// content hash.
    pub fn path_for(&self, source: &str) -> (r: String)
        ensures
            exists|h: u64| r@ == join_path(self.dir_view(), entry_name(utf8_size(source@), h)),
    {
        let n = byte_len(source);
        let h = content_hash(source);
        self.entry_path(n, h)
    }
}

} // verus!
