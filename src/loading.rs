use vstd::prelude::*;
use vstd::string::*;
use vstd::utf8::{decode_utf8, encode_utf8, encode_utf8_decode_utf8, encode_utf8_valid_utf8, is_char_boundary};

verus! {

/// Whether `c` has the Unicode White_Space property.
pub open spec fn is_white_space(c: char) -> bool {
    ('\u{9}' <= c <= '\u{d}') || c == ' ' || c == '\u{85}' || c == '\u{a0}' || c == '\u{1680}'
        || ('\u{2000}' <= c <= '\u{200a}') || c == '\u{2028}' || c == '\u{2029}' || c
        == '\u{202f}' || c == '\u{205f}' || c == '\u{3000}'
}

/// `s` without its leading white space.
pub open spec fn trim_start_chars(s: Seq<char>) -> Seq<char>
    decreases s.len(),
{
    if s.len() > 0 && is_white_space(s[0]) {
        trim_start_chars(s.drop_first())
    } else {
        s
    }
}

/// `s` without its trailing white space.
pub open spec fn trim_end_chars(s: Seq<char>) -> Seq<char>
    decreases s.len(),
{
    if s.len() > 0 && is_white_space(s.last()) {
        trim_end_chars(s.drop_last())
    } else {
        s
    }
}

/// `s` without leading and trailing white space.
pub open spec fn trim_chars(s: Seq<char>) -> Seq<char> {
    trim_end_chars(trim_start_chars(s))
}

/// Relies on `str::trim`: it removes leading and trailing characters with the
/// Unicode White_Space property.
#[verifier::external_body]
fn trim_str(s: &str) -> (r: &str)
    ensures
        r@ == trim_chars(s@),
{
    s.trim()
}

/// The UTF-8 bytes of `b`'s text without leading and trailing white space.
pub open spec fn trimmed(b: Seq<u8>) -> Seq<u8> {
    encode_utf8(trim_chars(decode_utf8(b)))
}

/// The bytes of `b` from position `a` on, when `a` falls between characters.
pub open spec fn cut(b: Seq<u8>, a: int) -> Option<Seq<u8>> {
    if is_char_boundary(b, a) {
        Some(b.subrange(a, b.len() as int))
    } else {
        None
    }
}

/// The first position at or after `i` where `pat` occurs in `b`.
pub open spec fn find_pattern(b: Seq<u8>, pat: Seq<u8>, i: int) -> Option<int>
    decreases b.len() + 1 - i,
{
    if i < 0 || i + pat.len() > b.len() {
        None
    } else if b.subrange(i, i + pat.len()) == pat {
        Some(i)
    } else {
        find_pattern(b, pat, i + 1)
    }
}

/// What is left of `b` after its first `n` occurrences of `pat` (fewer when it
/// holds fewer): the last piece of splitting `b` into at most `n + 1` pieces.
pub open spec fn after_nth(b: Seq<u8>, pat: Seq<u8>, n: nat) -> Option<Seq<u8>>
    decreases n,
{
    if n == 0 {
        Some(b)
    } else {
        match find_pattern(b, pat, 0) {
            None => Some(b),
            Some(i) => match cut(b, i + pat.len()) {
                None => None,
                Some(rest) => after_nth(rest, pat, (n - 1) as nat),
            },
        }
    }
}

/// The bytes of an optional text.
pub open spec fn opt_bytes(r: Option<&str>) -> Option<Seq<u8>> {
    match r {
        Some(s) => Some(s.spec_bytes()),
        None => None,
    }
}

fn trim(s: &str) -> (r: &str)
    ensures
        r.spec_bytes() == trimmed(s.spec_bytes()),
{
    proof {
        encode_utf8_decode_utf8(s@);
    }
    trim_str(s)
}

fn cut_at(s: &str, a: usize) -> (r: Option<&str>)
    ensures
        opt_bytes(r) == cut(s.spec_bytes(), a as int),
{
    if s.is_char_boundary(a) {
        let (_, rest) = s.split_at(a);
        Some(rest)
    } else {
        None
    }
}

fn occurs_at(b: &[u8], pat: &[u8], i: usize) -> (r: bool)
    requires
        i + pat@.len() <= b@.len(),
    ensures
        r == (b@.subrange(i as int, i + pat@.len()) == pat@),
{
    let n = b.len();
    let mut k: usize = 0;
    while k < pat.len()
        invariant
            i + pat@.len() <= b@.len(),
            b@.len() == n,
            k <= pat@.len(),
            forall|j: int| 0 <= j < k ==> b@[i + j] == pat@[j],
        decreases pat@.len() - k,
    {
        if b[i + k] != pat[k] {
            assert(b@.subrange(i as int, i + pat@.len())[k as int] != pat@[k as int]);
            return false;
        }
        k = k + 1;
    }
    assert(b@.subrange(i as int, i + pat@.len()) =~= pat@);
    true
}

fn find(s: &str, pat: &[u8]) -> (r: Option<usize>)
    ensures
        match r {
            Some(i) => find_pattern(s.spec_bytes(), pat@, 0) == Some(i as int),
            None => find_pattern(s.spec_bytes(), pat@, 0) is None,
        },
        r is Some ==> r->0 + pat@.len() <= s.spec_bytes().len(),
        s.spec_bytes().len() <= usize::MAX,
{
    let b = s.as_bytes();
    if pat.len() > b.len() {
        return None;
    }
    if pat.len() == 0 {
        assert(b@.subrange(0, 0) =~= pat@);
        return Some(0);
    }
    let n = b.len();
    let last = n - pat.len();
    let mut i: usize = 0;
    while i <= last
        invariant
            b@.len() == n,
            pat@.len() > 0,
            i <= last + 1,
            last + pat@.len() == b@.len(),
            b@ == s.spec_bytes(),
            find_pattern(b@, pat@, 0) == find_pattern(b@, pat@, i as int),
        decreases last + 1 - i,
    {
        if occurs_at(b, pat, i) {
            return Some(i);
        }
        i = i + 1;
    }
    None
}

fn split_after<'a>(s: &'a str, pat: &[u8], n: usize) -> (r: Option<&'a str>)
    ensures
        opt_bytes(r) == after_nth(s.spec_bytes(), pat@, n as nat),
{
    let mut rest = s;
    let mut k: usize = 0;
    while k < n
        invariant
            k <= n,
            after_nth(s.spec_bytes(), pat@, n as nat) == after_nth(
                rest.spec_bytes(),
                pat@,
                (n - k) as nat,
            ),
        decreases n - k,
    {
        match find(rest, pat) {
            None => return Some(rest),
            Some(i) => {
                match cut_at(rest, i + pat.len()) {
                    None => return None,
                    Some(next) => rest = next,
                }
            },
        }
        k = k + 1;
    }
    Some(rest)
}

pub const CLOSE_BRACKET: u8 = 93;
pub const COLON: u8 = 58;
pub const SPACE: u8 = 32;
pub const DASH: u8 = 45;
pub const DIGIT_ZERO: u8 = 48;
pub const DIGIT_ONE: u8 = 49;

/// The message of a Hadoop line: after the first ']', then after the next ':',
/// trimmed; lines of at most 29 bytes give none.
pub open spec fn hadoop_model(b: Seq<u8>) -> Option<Seq<u8>> {
    if b.len() > 29 {
        match find_pattern(b, seq![CLOSE_BRACKET], 0) {
            None => None,
            Some(i) => match cut(b, i + 1) {
                None => None,
                Some(r1) => match find_pattern(r1, seq![COLON], 0) {
                    None => None,
                    Some(j) => match cut(r1, j + 1) {
                        None => None,
                        Some(r2) => Some(trimmed(r2)),
                    },
                },
            },
        }
    } else {
        None
    }
}

/// The message of a Proxifier line: from byte 17 on, trimmed.
pub open spec fn proxifier_model(b: Seq<u8>) -> Option<Seq<u8>> {
    match cut(b, 17) {
        None => None,
        Some(r) => Some(trimmed(r)),
    }
}

/// The message after the first ']' skipped by `skip` bytes, trimmed; lines of
/// at most 29 bytes give none.
pub open spec fn after_bracket_model(b: Seq<u8>, skip: int) -> Option<Seq<u8>> {
    if b.len() > 29 {
        match find_pattern(b, seq![CLOSE_BRACKET], 0) {
            None => None,
            Some(i) => match cut(b, i + skip) {
                None => None,
                Some(r) => Some(trimmed(r)),
            },
        }
    } else {
        None
    }
}

/// The message of a Linux line: from byte 23 on, past the first ':' and the
/// byte after it, trimmed; none when that is empty or the line has at most
/// 23 bytes.
pub open spec fn linux_model(b: Seq<u8>) -> Option<Seq<u8>> {
    if b.len() > 23 {
        match cut(b, 23) {
            None => None,
            Some(r1) => match find_pattern(r1, seq![COLON], 0) {
                None => None,
                Some(j) => match cut(r1, j + 2) {
                    None => None,
                    Some(r2) => if trimmed(r2).len() > 0 {
                        Some(trimmed(r2))
                    } else {
                        None
                    },
                },
            },
        }
    } else {
        None
    }
}

/// The message of an HDFS line: the trimmed line after its first five spaces.
pub open spec fn hdfs_model(b: Seq<u8>) -> Option<Seq<u8>> {
    after_nth(trimmed(b), seq![SPACE], 5)
}

/// The message of an Android line: from byte 33 on, after the first ':',
/// trimmed; none when nothing follows.
pub open spec fn android_model(b: Seq<u8>) -> Option<Seq<u8>> {
    match cut(b, 33) {
        None => None,
        Some(r1) => match after_nth(r1, seq![COLON], 1) {
            None => None,
            Some(m) => if m.len() > 0 {
                Some(trimmed(m))
            } else {
                None
            },
        },
    }
}

/// The message of an Apache line: from byte 28 on, after the first ']',
/// trimmed; none when there is no ']' or nothing follows it.
pub open spec fn apache_model(b: Seq<u8>) -> Option<Seq<u8>> {
    match cut(b, 28) {
        None => None,
        Some(r1) => match find_pattern(r1, seq![CLOSE_BRACKET], 0) {
            None => None,
            Some(i) => match cut(r1, i + 1) {
                None => None,
                Some(r2) => if trimmed(r2).len() > 0 {
                    Some(trimmed(r2))
                } else {
                    None
                },
            },
        },
    }
}

/// The message of a Zookeeper line: after its first two " - ".
pub open spec fn zookeeper_model(b: Seq<u8>) -> Option<Seq<u8>> {
    after_nth(b, seq![SPACE, DASH, SPACE], 2)
}

/// The message of an HPC line: the trimmed line after its first six spaces,
/// less a leading "0" or "1" and the byte after it; none when that part has at
/// most two bytes.
pub open spec fn hpc_model(b: Seq<u8>) -> Option<Seq<u8>> {
    match after_nth(trimmed(b), seq![SPACE], 6) {
        None => None,
        Some(t) => if t.len() > 2 {
            if t[0] == DIGIT_ZERO || t[0] == DIGIT_ONE {
                cut(t, 2)
            } else {
                Some(t)
            }
        } else {
            None
        },
    }
}

fn hadoop<'a>(s: &'a str) -> (r: Option<&'a str>)
    ensures
        opt_bytes(r) == hadoop_model(s.spec_bytes()),
{
    if s.as_bytes().len() <= 29 {
        return None;
    }
    let close: [u8; 1] = [CLOSE_BRACKET];
    let colon: [u8; 1] = [COLON];
    assert(close@ == seq![CLOSE_BRACKET]);
    assert(colon@ == seq![COLON]);
    let i = match find(s, close.as_slice()) {
        None => return None,
        Some(i) => i,
    };
    let r1 = match cut_at(s, i + 1) {
        None => return None,
        Some(r1) => r1,
    };
    let j = match find(r1, colon.as_slice()) {
        None => return None,
        Some(j) => j,
    };
    match cut_at(r1, j + 1) {
        None => None,
        Some(r2) => Some(trim(r2)),
    }
}

fn proxifier<'a>(s: &'a str) -> (r: Option<&'a str>)
    ensures
        opt_bytes(r) == proxifier_model(s.spec_bytes()),
{
    match cut_at(s, 17) {
        None => None,
        Some(r) => Some(trim(r)),
    }
}

fn after_bracket<'a>(s: &'a str, skip: usize) -> (r: Option<&'a str>)
    requires
        skip <= 3,
    ensures
        opt_bytes(r) == after_bracket_model(s.spec_bytes(), skip as int),
{
    if s.as_bytes().len() <= 29 {
        return None;
    }
    let close: [u8; 1] = [CLOSE_BRACKET];
    assert(close@ == seq![CLOSE_BRACKET]);
    let i = match find(s, close.as_slice()) {
        None => return None,
        Some(i) => i,
    };
    if i > usize::MAX - skip {
        proof {
            encode_utf8_valid_utf8(s@);
        }
        return None;
    }
    match cut_at(s, i + skip) {
        None => None,
        Some(r) => Some(trim(r)),
    }
}

fn linux<'a>(s: &'a str) -> (r: Option<&'a str>)
    ensures
        opt_bytes(r) == linux_model(s.spec_bytes()),
{
    if s.as_bytes().len() <= 23 {
        return None;
    }
    let colon: [u8; 1] = [COLON];
    assert(colon@ == seq![COLON]);
    let r1 = match cut_at(s, 23) {
        None => return None,
        Some(r1) => r1,
    };
    let j = match find(r1, colon.as_slice()) {
        None => return None,
        Some(j) => j,
    };
    match cut_at(r1, j + 2) {
        None => None,
        Some(r2) => {
            let t = trim(r2);
            if t.as_bytes().len() > 0 {
                Some(t)
            } else {
                None
            }
        },
    }
}

fn hdfs<'a>(s: &'a str) -> (r: Option<&'a str>)
    ensures
        opt_bytes(r) == hdfs_model(s.spec_bytes()),
{
    let space: [u8; 1] = [SPACE];
    assert(space@ == seq![SPACE]);
    split_after(trim(s), space.as_slice(), 5)
}

fn android<'a>(s: &'a str) -> (r: Option<&'a str>)
    ensures
        opt_bytes(r) == android_model(s.spec_bytes()),
{
    let colon: [u8; 1] = [COLON];
    assert(colon@ == seq![COLON]);
    let r1 = match cut_at(s, 33) {
        None => return None,
        Some(r1) => r1,
    };
    match split_after(r1, colon.as_slice(), 1) {
        None => None,
        Some(m) => if m.as_bytes().len() > 0 {
            Some(trim(m))
        } else {
            None
        },
    }
}

fn apache<'a>(s: &'a str) -> (r: Option<&'a str>)
    ensures
        opt_bytes(r) == apache_model(s.spec_bytes()),
{
    let close: [u8; 1] = [CLOSE_BRACKET];
    assert(close@ == seq![CLOSE_BRACKET]);
    let r1 = match cut_at(s, 28) {
        None => return None,
        Some(r1) => r1,
    };
    let i = match find(r1, close.as_slice()) {
        None => return None,
        Some(i) => i,
    };
    match cut_at(r1, i + 1) {
        None => None,
        Some(r2) => {
            let t = trim(r2);
            if t.as_bytes().len() > 0 {
                Some(t)
            } else {
                None
            }
        },
    }
}

fn zookeeper<'a>(s: &'a str) -> (r: Option<&'a str>)
    ensures
        opt_bytes(r) == zookeeper_model(s.spec_bytes()),
{
    let sep: [u8; 3] = [SPACE, DASH, SPACE];
    assert(sep@ == seq![SPACE, DASH, SPACE]);
    split_after(s, sep.as_slice(), 2)
}

fn hpc<'a>(s: &'a str) -> (r: Option<&'a str>)
    ensures
        opt_bytes(r) == hpc_model(s.spec_bytes()),
{
    let space: [u8; 1] = [SPACE];
    assert(space@ == seq![SPACE]);
    match split_after(trim(s), space.as_slice(), 6) {
        None => None,
        Some(t) => {
            let b = t.as_bytes();
            if b.len() > 2 {
                if b[0] == DIGIT_ZERO || b[0] == DIGIT_ONE {
                    cut_at(t, 2)
                } else {
                    Some(t)
                }
            } else {
                None
            }
        },
    }
}

/// The message-extraction strategy of each supported dataset.
#[derive(PartialEq, Eq, Structural, Clone, Copy, Debug)]
pub enum Extractor {
    Hadoop,
    Proxifier,
    Ssh,
    Linux,
    Openstack,
    Hdfs,
    Android,
    Apache,
    Zookeeper,
    Hpc,
}

/// The strategy for the dataset called `name`, if it is supported.
pub open spec fn extractor_named(name: Seq<char>) -> Option<Extractor> {
    if name == "hadoop"@ {
        Some(Extractor::Hadoop)
    } else if name == "proxifier"@ {
        Some(Extractor::Proxifier)
    } else if name == "ssh"@ {
        Some(Extractor::Ssh)
    } else if name == "linux"@ {
        Some(Extractor::Linux)
    } else if name == "openstack"@ {
        Some(Extractor::Openstack)
    } else if name == "hdfs"@ {
        Some(Extractor::Hdfs)
    } else if name == "android"@ {
        Some(Extractor::Android)
    } else if name == "apache"@ {
        Some(Extractor::Apache)
    } else if name == "zookeeper"@ {
        Some(Extractor::Zookeeper)
    } else if name == "hpc"@ {
        Some(Extractor::Hpc)
    } else {
        None
    }
}

/// The bytes of the message that strategy `e` takes from a line of bytes `b`.
pub open spec fn extract_model(e: Extractor, b: Seq<u8>) -> Option<Seq<u8>> {
    match e {
        Extractor::Hadoop => hadoop_model(b),
        Extractor::Proxifier => proxifier_model(b),
        Extractor::Ssh => after_bracket_model(b, 3),
        Extractor::Linux => linux_model(b),
        Extractor::Openstack => after_bracket_model(b, 2),
        Extractor::Hdfs => hdfs_model(b),
        Extractor::Android => android_model(b),
        Extractor::Apache => apache_model(b),
        Extractor::Zookeeper => zookeeper_model(b),
        Extractor::Hpc => hpc_model(b),
    }
}

fn same_text(a: &str, b: &str) -> (r: bool)
    ensures
        r == (a@ == b@),
{
    let x = a.as_bytes();
    let y = b.as_bytes();
    proof {
        encode_utf8_decode_utf8(a@);
        encode_utf8_decode_utf8(b@);
    }
    if x.len() != y.len() {
        return false;
    }
    let r = occurs_at(x, y, 0);
    assert(x@.subrange(0, y@.len() as int) =~= x@);
    r
}

/// The strategy for the dataset called `name`; `None` for an unsupported
/// dataset.
pub fn message_extractor(name: &String) -> (r: Option<Extractor>)
    ensures
        r == extractor_named(name@),
{
    proof {
        reveal_strlit("hadoop");
        reveal_strlit("proxifier");
        reveal_strlit("ssh");
        reveal_strlit("linux");
        reveal_strlit("openstack");
        reveal_strlit("hdfs");
        reveal_strlit("android");
        reveal_strlit("apache");
        reveal_strlit("zookeeper");
        reveal_strlit("hpc");
    }
    let n = name.as_str();
    if same_text(n, "hadoop") {
        Some(Extractor::Hadoop)
    } else if same_text(n, "proxifier") {
        Some(Extractor::Proxifier)
    } else if same_text(n, "ssh") {
        Some(Extractor::Ssh)
    } else if same_text(n, "linux") {
        Some(Extractor::Linux)
    } else if same_text(n, "openstack") {
        Some(Extractor::Openstack)
    } else if same_text(n, "hdfs") {
        Some(Extractor::Hdfs)
    } else if same_text(n, "android") {
        Some(Extractor::Android)
    } else if same_text(n, "apache") {
        Some(Extractor::Apache)
    } else if same_text(n, "zookeeper") {
        Some(Extractor::Zookeeper)
    } else if same_text(n, "hpc") {
        Some(Extractor::Hpc)
    } else {
        None
    }
}

impl Extractor {
    /// The message this strategy takes from `line`, or `None` when the line
    /// has none. A cut that would fall inside a character gives `None`.
    pub fn extract(&self, line: String) -> (r: Option<String>)
        ensures
            match r {
                Some(m) => extract_model(*self, encode_utf8(line@)) == Some(encode_utf8(m@)),
                None => extract_model(*self, encode_utf8(line@)) is None,
            },
    {
        let s = line.as_str();
        let found = match self {
            Extractor::Hadoop => hadoop(s),
            Extractor::Proxifier => proxifier(s),
            Extractor::Ssh => after_bracket(s, 3),
            Extractor::Linux => linux(s),
            Extractor::Openstack => after_bracket(s, 2),
            Extractor::Hdfs => hdfs(s),
            Extractor::Android => android(s),
            Extractor::Apache => apache(s),
            Extractor::Zookeeper => zookeeper(s),
            Extractor::Hpc => hpc(s),
        };
        match found {
            Some(m) => Some(m.to_owned()),
            None => None,
        }
    }
}

} // verus!
