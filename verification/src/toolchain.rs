//! The build helper's rules: target triples, host identification from a
//! toolchain archive's name, and the cargo command lines of each build.
use vstd::prelude::*;

verus! {

/// A CPU architecture the system targets.
#[derive(Clone, Copy, Debug, PartialEq, Eq, Structural)]
pub enum ArchTarget {
    X86_64,
    Arm64,
}

/// The C library ABI of a Linux host.
#[derive(Clone, Copy, Debug, PartialEq, Eq, Structural)]
pub enum LinuxABI {
    Musl,
    Gnu,
}

/// The operating system of a build host.
#[derive(Clone, Copy, Debug, PartialEq, Eq, Structural)]
pub enum HostOS {
    Linux(LinuxABI),
    MacOS,
}

/// The bytes of `x86_64`.
pub open spec fn x86_64_name() -> Seq<u8> {
    seq![0x78u8, 0x38, 0x36, 0x5F, 0x36, 0x34]
}

/// The bytes of `aarch64`.
pub open spec fn aarch64_name() -> Seq<u8> {
    seq![0x61u8, 0x61, 0x72, 0x63, 0x68, 0x36, 0x34]
}

/// The name of an architecture in target triples.
pub open spec fn arch_name(a: ArchTarget) -> Seq<u8> {
    match a {
        ArchTarget::X86_64 => x86_64_name(),
        ArchTarget::Arm64 => aarch64_name(),
    }
}

/// The architecture named `s`, if any.
pub open spec fn arch_of(s: Seq<u8>) -> Option<ArchTarget> {
    if s == x86_64_name() {
        Some(ArchTarget::X86_64)
    } else if s == aarch64_name() {
        Some(ArchTarget::Arm64)
    } else {
        None
    }
}

/// Whether the bytes of `a` are those of `b`.
pub fn bytes_eq(a: &[u8], b: &[u8]) -> (r: bool)
    ensures
        r == (a@ == b@),
{
    if a.len() != b.len() {
        return false;
    }
    let mut i: usize = 0;
    while i < a.len()
        invariant
            a@.len() == b@.len(),
            0 <= i <= a@.len(),
            forall|j: int| 0 <= j < i ==> a@[j] == b@[j],
        decreases a@.len() - i,
    {
        if a[i] != b[i] {
            return false;
        }
        i = i + 1;
    }
    assert(a@ =~= b@);
    true
}

fn literal(bytes: &[u8]) -> (r: Vec<u8>)
    ensures
        r@ == bytes@,
{
    let r = crate::net::copy_from(bytes, 0);
    assert(r@ =~= bytes@);
    r
}

impl ArchTarget {
    /// The architecture named `s` in a target triple, if any.
    pub fn from_str(s: &[u8]) -> (r: Option<ArchTarget>)
        ensures
            r == arch_of(s@),
    {
        let x86 = [0x78u8, 0x38, 0x36, 0x5F, 0x36, 0x34];
        let arm = [0x61u8, 0x61, 0x72, 0x63, 0x68, 0x36, 0x34];
        assert(x86@ =~= x86_64_name());
        assert(arm@ =~= aarch64_name());
        if bytes_eq(s, &x86) {
            Some(ArchTarget::X86_64)
        } else if bytes_eq(s, &arm) {
            Some(ArchTarget::Arm64)
        } else {
            None
        }
    }

    /// The architecture's name in target triples.
    pub fn as_str(&self) -> (r: Vec<u8>)
        ensures
            r@ == arch_name(*self),
    {
        match self {
            ArchTarget::X86_64 => {
                let b = [0x78u8, 0x38, 0x36, 0x5F, 0x36, 0x34];
                assert(b@ =~= x86_64_name());
                literal(&b)
            },
            ArchTarget::Arm64 => {
                let b = [0x61u8, 0x61, 0x72, 0x63, 0x68, 0x36, 0x34];
                assert(b@ =~= aarch64_name());
                literal(&b)
            },
        }
    }
}

/// The dash.
pub const DASH: u8 = 0x2D;

/// The parts of `s` between dashes, in order.
pub open spec fn split_dash(s: Seq<u8>) -> Seq<Seq<u8>>
    decreases s.len(),
{
    if s.len() == 0 {
        seq![Seq::empty()]
    } else {
        let parts = split_dash(s.drop_last());
        if s.last() == DASH {
            parts.push(Seq::empty())
        } else {
            parts.update(parts.len() - 1, parts.last().push(s.last()))
        }
    }
}

proof fn lemma_split_nonempty(s: Seq<u8>)
    ensures
        split_dash(s).len() >= 1,
    decreases s.len(),
{
    if s.len() > 0 {
        lemma_split_nonempty(s.drop_last());
    }
}

/// The parts of `s` between dashes.
pub fn split_dashes(s: &[u8]) -> (r: Vec<Vec<u8>>)
    ensures
        r@.len() == split_dash(s@).len(),
        forall|i: int| 0 <= i < r@.len() ==> (#[trigger] r@[i])@ == split_dash(s@)[i],
{
    let mut parts: Vec<Vec<u8>> = Vec::new();
    let mut current: Vec<u8> = Vec::new();
    let mut i: usize = 0;
    while i < s.len()
        invariant
            0 <= i <= s@.len(),
            parts@.len() + 1 == split_dash(s@.subrange(0, i as int)).len(),
            forall|k: int| 0 <= k < parts@.len() ==> (#[trigger] parts@[k])@ == split_dash(s@.subrange(0, i as int))[k],
            current@ == split_dash(s@.subrange(0, i as int)).last(),
        decreases s@.len() - i,
    {
        proof {
            let t = s@.subrange(0, i as int + 1);
            assert(t.drop_last() =~= s@.subrange(0, i as int));
            lemma_split_nonempty(s@.subrange(0, i as int));
        }
        if s[i] == DASH {
            parts.push(current);
            current = Vec::new();
        } else {
            current.push(s[i]);
        }
        i = i + 1;
        proof {
            let prev = split_dash(s@.subrange(0, i as int - 1));
            let now = split_dash(s@.subrange(0, i as int));
            assert(now.len() == parts@.len() + 1);
            assert forall|k: int| 0 <= k < parts@.len() implies (#[trigger] parts@[k])@ == now[k] by {
                if k < prev.len() - 1 {
                    assert(now[k] == prev[k]);
                }
            }
        }
    }
    assert(s@.subrange(0, s@.len() as int) =~= s@);
    parts.push(current);
    proof {
        let all = split_dash(s@);
        assert forall|k: int| 0 <= k < parts@.len() implies (#[trigger] parts@[k])@ == all[k] by {}
    }
    parts
}

/// The bytes of `linux`, `musl`, `gnu`, `apple`, `darwin` and `macos`.
pub open spec fn linux_name() -> Seq<u8> {
    seq![0x6Cu8, 0x69, 0x6E, 0x75, 0x78]
}

pub open spec fn musl_name() -> Seq<u8> {
    seq![0x6Du8, 0x75, 0x73, 0x6C]
}

pub open spec fn gnu_name() -> Seq<u8> {
    seq![0x67u8, 0x6E, 0x75]
}

pub open spec fn apple_name() -> Seq<u8> {
    seq![0x61u8, 0x70, 0x70, 0x6C, 0x65]
}

pub open spec fn darwin_name() -> Seq<u8> {
    seq![0x64u8, 0x61, 0x72, 0x77, 0x69, 0x6E]
}

pub open spec fn macos_name() -> Seq<u8> {
    seq![0x6Du8, 0x61, 0x63, 0x6F, 0x73]
}

/// The host that the identifier `id` names: `arch-os-abi` with a Linux
/// ABI or Apple's Darwin, `arch-os` with Linux (GNU) or Apple (also written
/// `macos`), or just `macos` for an ARM Mac; only the first three parts count.
pub open spec fn host_of(id: Seq<u8>) -> Option<(ArchTarget, HostOS)> {
    let p = split_dash(id);
    if p.len() >= 3 {
        match arch_of(p[0]) {
            None => None,
            Some(arch) => if p[1] == linux_name() && p[2] == musl_name() {
                Some((arch, HostOS::Linux(LinuxABI::Musl)))
            } else if p[1] == linux_name() && p[2] == gnu_name() {
                Some((arch, HostOS::Linux(LinuxABI::Gnu)))
            } else if p[1] == apple_name() && p[2] == darwin_name() {
                Some((arch, HostOS::MacOS))
            } else {
                None
            },
        }
    } else if p.len() == 2 {
        match arch_of(p[0]) {
            None => None,
            Some(arch) => if p[1] == linux_name() {
                Some((arch, HostOS::Linux(LinuxABI::Gnu)))
            } else if p[1] == apple_name() || p[1] == macos_name() {
                Some((arch, HostOS::MacOS))
            } else {
                None
            },
        }
    } else if p[0] == macos_name() {
        Some((ArchTarget::Arm64, HostOS::MacOS))
    } else {
        None
    }
}

/// The host that the identifier `id` names; see [`host_of`].
pub fn extract_host(id: &[u8]) -> (r: Option<(ArchTarget, HostOS)>)
    ensures
        r == host_of(id@),
{
    proof {
        lemma_split_nonempty(id@);
    }
    let p = split_dashes(id);
    let linux = [0x6Cu8, 0x69, 0x6E, 0x75, 0x78];
    let musl = [0x6Du8, 0x75, 0x73, 0x6C];
    let gnu = [0x67u8, 0x6E, 0x75];
    let apple = [0x61u8, 0x70, 0x70, 0x6C, 0x65];
    let darwin = [0x64u8, 0x61, 0x72, 0x77, 0x69, 0x6E];
    let macos = [0x6Du8, 0x61, 0x63, 0x6F, 0x73];
    assert(linux@ =~= linux_name() && musl@ =~= musl_name() && gnu@ =~= gnu_name());
    assert(apple@ =~= apple_name() && darwin@ =~= darwin_name() && macos@ =~= macos_name());
    if p.len() >= 3 {
        let arch = match ArchTarget::from_str(p[0].as_slice()) {
            Some(a) => a,
            None => return None,
        };
        let os = p[1].as_slice();
        let abi = p[2].as_slice();
        if bytes_eq(os, &linux) && bytes_eq(abi, &musl) {
            Some((arch, HostOS::Linux(LinuxABI::Musl)))
        } else if bytes_eq(os, &linux) && bytes_eq(abi, &gnu) {
            Some((arch, HostOS::Linux(LinuxABI::Gnu)))
        } else if bytes_eq(os, &apple) && bytes_eq(abi, &darwin) {
            Some((arch, HostOS::MacOS))
        } else {
            None
        }
    } else if p.len() == 2 {
        let arch = match ArchTarget::from_str(p[0].as_slice()) {
            Some(a) => a,
            None => return None,
        };
        let os = p[1].as_slice();
        if bytes_eq(os, &linux) {
            Some((arch, HostOS::Linux(LinuxABI::Gnu)))
        } else if bytes_eq(os, &apple) || bytes_eq(os, &macos) {
            Some((arch, HostOS::MacOS))
        } else {
            None
        }
    } else if bytes_eq(p[0].as_slice(), &macos) {
        Some((ArchTarget::Arm64, HostOS::MacOS))
    } else {
        None
    }
}

/// `s` without the suffix `suffix`, repeatedly, as `trim_end_matches` does.
pub open spec fn trim_end(s: Seq<u8>, suffix: Seq<u8>) -> Seq<u8>
    decreases s.len(),
{
    if suffix.len() > 0 && s.len() >= suffix.len() && s.subrange(s.len() - suffix.len(), s.len() as int) == suffix {
        trim_end(s.subrange(0, s.len() - suffix.len()), suffix)
    } else {
        s
    }
}

/// `s` without the prefix `prefix`, repeatedly, as `trim_start_matches` does.
pub open spec fn trim_start(s: Seq<u8>, prefix: Seq<u8>) -> Seq<u8>
    decreases s.len(),
{
    if prefix.len() > 0 && s.len() >= prefix.len() && s.subrange(0, prefix.len() as int) == prefix {
        trim_start(s.subrange(prefix.len() as int, s.len() as int), prefix)
    } else {
        s
    }
}

/// Whether `s[at..at + w.len()]` is `w`.
fn matches_at(s: &[u8], at: usize, w: &[u8]) -> (r: bool)
    requires
        at + w@.len() <= s@.len(),
    ensures
        r == (s@.subrange(at as int, at + w@.len()) == w@),
{
    let mut j: usize = 0;
    let slen = s.len();
    while j < w.len()
        invariant
            0 <= j <= w@.len(),
            slen == s@.len(),
            at + w@.len() <= s@.len(),
            forall|k: int| 0 <= k < j ==> s@[at + k] == w@[k],
        decreases w@.len() - j,
    {
        if s[at + j] != w[j] {
            assert(s@.subrange(at as int, at + w@.len())[j as int] != w@[j as int]);
            return false;
        }
        j = j + 1;
    }
    assert(s@.subrange(at as int, at + w@.len()) =~= w@);
    true
}

fn trim_end_matches(s: &[u8], suffix: &[u8]) -> (r: Vec<u8>)
    ensures
        r@ == trim_end(s@, suffix@),
{
    let slen = s.len();
    if suffix.len() == 0 {
        return literal(s);
    }
    let mut end: usize = slen;
    assert(s@.subrange(0, slen as int) =~= s@);
    loop
        invariant
            slen == s@.len(),
            0 <= end <= slen,
            suffix@.len() > 0,
            trim_end(s@.subrange(0, end as int), suffix@) == trim_end(s@, suffix@),
        ensures
            0 <= end <= slen,
            trim_end(s@, suffix@) == s@.subrange(0, end as int),
        decreases end,
    {
        let ghost cur = s@.subrange(0, end as int);
        if end < suffix.len() {
            break;
        }
        let start = end - suffix.len();
        if !matches_at(s, start, suffix) {
            assert(cur.subrange(cur.len() - suffix@.len(), cur.len() as int) =~= s@.subrange(start as int, end as int));
            break;
        }
        assert(cur.subrange(cur.len() - suffix@.len(), cur.len() as int) =~= s@.subrange(start as int, end as int));
        assert(cur.subrange(0, cur.len() - suffix@.len()) =~= s@.subrange(0, start as int));
        end = start;
    }
    let v = literal(s);
    crate::vtty::split_front(&v, end).0
}

fn trim_start_matches(s: &[u8], prefix: &[u8]) -> (r: Vec<u8>)
    ensures
        r@ == trim_start(s@, prefix@),
{
    let slen = s.len();
    if prefix.len() == 0 {
        return literal(s);
    }
    let mut start: usize = 0;
    assert(s@.subrange(0, slen as int) =~= s@);
    loop
        invariant
            slen == s@.len(),
            0 <= start <= slen,
            prefix@.len() > 0,
            trim_start(s@.subrange(start as int, slen as int), prefix@) == trim_start(s@, prefix@),
        ensures
            0 <= start <= slen,
            trim_start(s@, prefix@) == s@.subrange(start as int, slen as int),
        decreases slen - start,
    {
        let ghost cur = s@.subrange(start as int, slen as int);
        if slen - start < prefix.len() {
            break;
        }
        if !matches_at(s, start, prefix) {
            assert(cur.subrange(0, prefix@.len() as int) =~= s@.subrange(start as int, start + prefix@.len()));
            break;
        }
        assert(cur.subrange(0, prefix@.len() as int) =~= s@.subrange(start as int, start + prefix@.len()));
        assert(cur.subrange(prefix@.len() as int, cur.len() as int) =~= s@.subrange(start + prefix@.len(), slen as int));
        start = start + prefix.len();
    }
    let v = literal(s);
    crate::vtty::split_front(&v, start).1
}

/// The part of `s` before its first `sep` and the part after it, if it has one.
pub open spec fn split_once_at(s: Seq<u8>, sep: u8) -> Option<(Seq<u8>, Seq<u8>)> {
    if exists|i: int| 0 <= i < s.len() && s[i] == sep {
        let i = choose|i: int| 0 <= i < s.len() && s[i] == sep && forall|k: int| 0 <= k < i ==> s[k] != sep;
        Some((s.subrange(0, i), s.subrange(i + 1, s.len() as int)))
    } else {
        None
    }
}

/// The part of `s` before its first dash and the part after it, if it has one.
pub open spec fn split_once_dash(s: Seq<u8>) -> Option<(Seq<u8>, Seq<u8>)> {
    split_once_at(s, DASH)
}

/// The part of `s` before its first `sep` and the part after it, if it has one.
pub fn split_once_byte(s: &[u8], sep: u8) -> (r: Option<(Vec<u8>, Vec<u8>)>)
    ensures
        match split_once_at(s@, sep) {
            Some((a, b)) => r matches Some((x, y)) && x@ == a && y@ == b,
            None => r is None,
        },
{
    let mut i: usize = 0;
    while i < s.len()
        invariant
            0 <= i <= s@.len(),
            forall|k: int| 0 <= k < i ==> s@[k] != sep,
        decreases s@.len() - i,
    {
        if s[i] == sep {
            let v = literal(s);
            let (a, rest) = crate::vtty::split_front(&v, i);
            let (_, b) = crate::vtty::split_front(&rest, 1);
            proof {
                let w = choose|w: int| 0 <= w < s@.len() && s@[w] == sep && forall|k: int| 0 <= k < w ==> s@[k] != sep;
                assert(s@[i as int] == sep);
                if w < i {
                    assert(s@[w] != sep);
                }
                if w > i {
                    assert(s@[i as int] != sep);
                }
                assert(w == i);
                assert(b@ =~= s@.subrange(i + 1, s@.len() as int));
            }
            return Some((a, b));
        }
        i = i + 1;
    }
    None
}

fn split_once(s: &[u8]) -> (r: Option<(Vec<u8>, Vec<u8>)>)
    ensures
        match split_once_dash(s@) {
            Some((a, b)) => r matches Some((x, y)) && x@ == a && y@ == b,
            None => r is None,
        },
{
    split_once_byte(s, DASH)
}

/// The bytes of `.tar.gz` and of `unknown-safaos-`.
pub open spec fn tar_gz() -> Seq<u8> {
    seq![0x2Eu8, 0x74, 0x61, 0x72, 0x2E, 0x67, 0x7A]
}

pub open spec fn unknown_safaos_dash() -> Seq<u8> {
    seq![0x75u8, 0x6E, 0x6B, 0x6E, 0x6F, 0x77, 0x6E, 0x2D, 0x73, 0x61, 0x66, 0x61, 0x6F, 0x73, 0x2D]
}

/// Whether the toolchain archive `name` is one for building for `for_arch`
/// on `host`: `version-arch-unknown-safaos-host[.tar.gz]`.
pub open spec fn toolchain_expected_spec(for_arch: ArchTarget, name: Seq<u8>, host: (ArchTarget, HostOS)) -> bool {
    let n = trim_end(name, tar_gz());
    match split_once_dash(n) {
        None => false,
        Some((_, rest)) => match split_once_dash(rest) {
            None => false,
            Some((arch_name, rest2)) => arch_of(arch_name) == Some(for_arch) && host_of(
                trim_start(rest2, unknown_safaos_dash()),
            ) == Some(host),
        },
    }
}

/// Whether the toolchain archive `name` is one for building for `for_arch`
/// on `host`; see [`toolchain_expected_spec`].
pub fn toolchain_is_expected(for_arch: ArchTarget, name: &[u8], host: (ArchTarget, HostOS)) -> (r: bool)
    ensures
        r == toolchain_expected_spec(for_arch, name@, host),
{
    let tgz = [0x2Eu8, 0x74, 0x61, 0x72, 0x2E, 0x67, 0x7A];
    assert(tgz@ =~= tar_gz());
    let name = trim_end_matches(name, &tgz);
    let (_ver, rest) = match split_once(name.as_slice()) {
        Some(p) => p,
        None => return false,
    };
    let (arch_name, rest) = match split_once(rest.as_slice()) {
        Some(p) => p,
        None => return false,
    };
    match ArchTarget::from_str(arch_name.as_slice()) {
        Some(a) => if a != for_arch {
            return false;
        },
        None => return false,
    }
    let prefix = [0x75u8, 0x6E, 0x6B, 0x6E, 0x6F, 0x77, 0x6E, 0x2D, 0x73, 0x61, 0x66, 0x61, 0x6F, 0x73, 0x2D];
    assert(prefix@ =~= unknown_safaos_dash());
    let host_id = trim_start_matches(rest.as_slice(), &prefix);
    match extract_host(host_id.as_slice()) {
        Some(d) => d.0 == host.0 && d.1 == host.1,
        None => false,
    }
}

/// The bytes of `-unknown-safaos`.
pub open spec fn unknown_safaos() -> Seq<u8> {
    seq![0x2Du8, 0x75, 0x6E, 0x6B, 0x6E, 0x6F, 0x77, 0x6E, 0x2D, 0x73, 0x61, 0x66, 0x61, 0x6F, 0x73]
}

/// The bytes of `-unknown-none`.
pub open spec fn unknown_none() -> Seq<u8> {
    seq![0x2Du8, 0x75, 0x6E, 0x6B, 0x6E, 0x6F, 0x77, 0x6E, 0x2D, 0x6E, 0x6F, 0x6E, 0x65]
}

fn append(out: &mut Vec<u8>, b: &[u8])
    ensures
        final(out)@ == old(out)@ + b@,
{
    let v = literal(b);
    crate::process_mem::append_bytes(out, &v);
}

/// The rustup toolchain of the system's Rust for `arch`: `+arch-unknown-safaos`.
pub fn safaos_rustc_specifier(arch: ArchTarget) -> (r: Vec<u8>)
    ensures
        r@ == seq![0x2Bu8] + arch_name(arch) + unknown_safaos(),
{
    let mut r: Vec<u8> = Vec::new();
    r.push(0x2B);
    let name = arch.as_str();
    crate::process_mem::append_bytes(&mut r, &name);
    let tail = [0x2Du8, 0x75, 0x6E, 0x6B, 0x6E, 0x6F, 0x77, 0x6E, 0x2D, 0x73, 0x61, 0x66, 0x61, 0x6F, 0x73];
    assert(tail@ =~= unknown_safaos());
    append(&mut r, &tail);
    assert(r@ =~= seq![0x2Bu8] + arch_name(arch) + unknown_safaos());
    r
}

/// What a build targets: the system itself, or bare metal.
#[derive(Clone, Copy, Debug, PartialEq, Eq, Structural)]
pub enum RustcTarget {
    /// Bare metal.
    Freestanding,
    SafaOS,
}

impl RustcTarget {
    /// The target triple for `arch`: `arch-unknown-safaos` or `arch-unknown-none`.
    pub fn into_cargo_target(self, arch: ArchTarget) -> (r: Vec<u8>)
        ensures
            r@ == arch_name(arch) + (match self {
                RustcTarget::SafaOS => unknown_safaos(),
                RustcTarget::Freestanding => unknown_none(),
            }),
    {
        let mut r = arch.as_str();
        match self {
            RustcTarget::SafaOS => {
                let tail = [0x2Du8, 0x75, 0x6E, 0x6B, 0x6E, 0x6F, 0x77, 0x6E, 0x2D, 0x73, 0x61, 0x66, 0x61, 0x6F, 0x73];
                assert(tail@ =~= unknown_safaos());
                append(&mut r, &tail);
            },
            RustcTarget::Freestanding => {
                let tail = [0x2Du8, 0x75, 0x6E, 0x6B, 0x6E, 0x6F, 0x77, 0x6E, 0x2D, 0x6E, 0x6F, 0x6E, 0x65];
                assert(tail@ =~= unknown_none());
                append(&mut r, &tail);
            },
        }
        r
    }
}

/// The views of some byte strings.
pub open spec fn byte_views(v: Seq<Vec<u8>>) -> Seq<Seq<u8>> {
    Seq::new(v.len(), |i: int| v[i]@)
}

/// The bytes of `build`, `test`, `--no-run`, `--target` and
/// `--message-format=json-render-diagnostics`.
pub open spec fn build_word() -> Seq<u8> {
    seq![0x62u8, 0x75, 0x69, 0x6C, 0x64]
}

pub open spec fn test_word() -> Seq<u8> {
    seq![0x74u8, 0x65, 0x73, 0x74]
}

pub open spec fn no_run_word() -> Seq<u8> {
    seq![0x2Du8, 0x2D, 0x6E, 0x6F, 0x2D, 0x72, 0x75, 0x6E]
}

pub open spec fn target_word() -> Seq<u8> {
    seq![0x2Du8, 0x2D, 0x74, 0x61, 0x72, 0x67, 0x65, 0x74]
}

pub open spec fn json_word() -> Seq<u8> {
    seq![
        0x2Du8, 0x2D, 0x6D, 0x65, 0x73, 0x73, 0x61, 0x67, 0x65, 0x2D, 0x66, 0x6F, 0x72, 0x6D, 0x61, 0x74, 0x3D,
        0x6A, 0x73, 0x6F, 0x6E, 0x2D, 0x72, 0x65, 0x6E, 0x64, 0x65, 0x72, 0x2D, 0x64, 0x69, 0x61, 0x67, 0x6E,
        0x6F, 0x73, 0x74, 0x69, 0x63, 0x73,
    ]
}

/// The non-empty ones of `args`, in order.
pub open spec fn non_empty(args: Seq<Seq<u8>>) -> Seq<Seq<u8>>
    decreases args.len(),
{
    if args.len() == 0 {
        Seq::empty()
    } else if args.last().len() == 0 {
        non_empty(args.drop_last())
    } else {
        non_empty(args.drop_last()).push(args.last())
    }
}

/// The cargo arguments of a build for `target` on `arch`: the subcommand
/// arguments `args`, then the target triple and the JSON diagnostics format.
pub open spec fn cargo_command(args: Seq<Seq<u8>>, target: RustcTarget, arch: ArchTarget) -> Seq<Seq<u8>> {
    args + seq![
        target_word(),
        arch_name(arch) + (match target {
            RustcTarget::SafaOS => unknown_safaos(),
            RustcTarget::Freestanding => unknown_none(),
        }),
        json_word(),
    ]
}

proof fn lemma_views_step(args: Seq<Vec<u8>>, k: int)
    requires
        0 <= k < args.len(),
    ensures
        byte_views(args.subrange(0, k + 1)) == byte_views(args.subrange(0, k)).push(args[k]@),
        non_empty(byte_views(args.subrange(0, k + 1))) == (if args[k]@.len() == 0 {
            non_empty(byte_views(args.subrange(0, k)))
        } else {
            non_empty(byte_views(args.subrange(0, k))).push(args[k]@)
        }),
{
    let a = byte_views(args.subrange(0, k + 1));
    assert(a =~= byte_views(args.subrange(0, k)).push(args[k]@));
    assert(a.drop_last() =~= byte_views(args.subrange(0, k)));
    assert(a.last() == args[k]@);
}

proof fn lemma_views_push(v: Seq<Vec<u8>>, e: Vec<u8>)
    ensures
        byte_views(v.push(e)) == byte_views(v).push(e@),
{
    assert(byte_views(v.push(e)) =~= byte_views(v).push(e@));
}

fn push_word_arg(out: &mut Vec<Vec<u8>>, b: &[u8])
    ensures
        final(out)@.len() == old(out)@.len() + 1,
        forall|i: int| 0 <= i < old(out)@.len() ==> final(out)@[i] == old(out)@[i],
        final(out)@.last()@ == b@,
{
    out.push(literal(b));
}

fn finish_cargo_command(args: &mut Vec<Vec<u8>>, target: RustcTarget, arch: ArchTarget)
    ensures
        byte_views(final(args)@) == cargo_command(byte_views(old(args)@), target, arch),
{
    let ghost before = byte_views(args@);
    let t = [0x2Du8, 0x2D, 0x74, 0x61, 0x72, 0x67, 0x65, 0x74];
    assert(t@ =~= target_word());
    push_word_arg(args, &t);
    args.push(target.into_cargo_target(arch));
    let json = [
        0x2Du8, 0x2D, 0x6D, 0x65, 0x73, 0x73, 0x61, 0x67, 0x65, 0x2D, 0x66, 0x6F, 0x72, 0x6D, 0x61, 0x74, 0x3D,
        0x6A, 0x73, 0x6F, 0x6E, 0x2D, 0x72, 0x65, 0x6E, 0x64, 0x65, 0x72, 0x2D, 0x64, 0x69, 0x61, 0x67, 0x6E,
        0x6F, 0x73, 0x74, 0x69, 0x63, 0x73,
    ];
    assert(json@ =~= json_word());
    push_word_arg(args, &json);
    assert(byte_views(args@) =~= cargo_command(before, target, arch));
}

fn push_non_empty(out: &mut Vec<Vec<u8>>, args: &Vec<Vec<u8>>)
    ensures
        byte_views(final(out)@) == byte_views(old(out)@) + non_empty(byte_views(args@)),
{
    let mut k: usize = 0;
    while k < args.len()
        invariant
            0 <= k <= args@.len(),
            byte_views(out@) == byte_views(old(out)@) + non_empty(byte_views(args@.subrange(0, k as int))),
        decreases args@.len() - k,
    {
        proof {
            lemma_views_step(args@, k as int);
        }
        let ghost before = out@;
        if args[k].len() > 0 {
            let item = literal(args[k].as_slice());
            out.push(item);
            proof {
                lemma_views_push(before, item);
                assert(byte_views(out@) =~= byte_views(old(out)@) + non_empty(byte_views(args@.subrange(0, k as int))).push(args@[k as int]@));
            }
        }
        k = k + 1;
    }
    assert(args@.subrange(0, args@.len() as int) =~= args@);
}

/// The cargo arguments that build a crate for the system on `arch`: the
/// toolchain, `build` and `args`, leaving out empty ones, then the target.
pub fn build_safaos(arch: ArchTarget, args: &Vec<Vec<u8>>) -> (r: Vec<Vec<u8>>)
    ensures
        byte_views(r@) == cargo_command(
            non_empty(seq![seq![0x2Bu8] + arch_name(arch) + unknown_safaos(), build_word()] + byte_views(args@)),
            RustcTarget::SafaOS,
            arch,
        ),
{
    let mut all: Vec<Vec<u8>> = Vec::new();
    all.push(safaos_rustc_specifier(arch));
    let b = [0x62u8, 0x75, 0x69, 0x6C, 0x64];
    assert(b@ =~= build_word());
    push_word_arg(&mut all, &b);
    let mut k: usize = 0;
    while k < args.len()
        invariant
            0 <= k <= args@.len(),
            byte_views(all@) == seq![seq![0x2Bu8] + arch_name(arch) + unknown_safaos(), build_word()] + byte_views(
                args@.subrange(0, k as int),
            ),
        decreases args@.len() - k,
    {
        let ghost before = all@;
        let item = literal(args[k].as_slice());
        all.push(item);
        proof {
            lemma_views_push(before, item);
            lemma_views_step(args@, k as int);
        }
        k = k + 1;
        assert(byte_views(all@) =~= seq![seq![0x2Bu8] + arch_name(arch) + unknown_safaos(), build_word()]
            + byte_views(args@.subrange(0, k as int)));
    }
    assert(args@.subrange(0, args@.len() as int) =~= args@);
    let mut r: Vec<Vec<u8>> = Vec::new();
    assert(byte_views(r@) =~= Seq::<Seq<u8>>::empty());
    push_non_empty(&mut r, &all);
    finish_cargo_command(&mut r, RustcTarget::SafaOS, arch);
    assert(Seq::<Seq<u8>>::empty() + non_empty(byte_views(all@)) =~= non_empty(byte_views(all@)));
    r
}

/// The cargo arguments that build a crate for bare metal on `arch`:
/// `build` and `args`, then the target.
pub fn build_freestanding(arch: ArchTarget, args: &Vec<Vec<u8>>) -> (r: Vec<Vec<u8>>)
    ensures
        byte_views(r@) == cargo_command(seq![build_word()] + byte_views(args@), RustcTarget::Freestanding, arch),
{
    let mut r: Vec<Vec<u8>> = Vec::new();
    let b = [0x62u8, 0x75, 0x69, 0x6C, 0x64];
    assert(b@ =~= build_word());
    push_word_arg(&mut r, &b);
    let mut k: usize = 0;
    while k < args.len()
        invariant
            0 <= k <= args@.len(),
            byte_views(r@) == seq![build_word()] + byte_views(args@.subrange(0, k as int)),
        decreases args@.len() - k,
    {
        let ghost before = r@;
        let item = literal(args[k].as_slice());
        r.push(item);
        proof {
            lemma_views_push(before, item);
            lemma_views_step(args@, k as int);
        }
        k = k + 1;
        assert(byte_views(r@) =~= seq![build_word()] + byte_views(args@.subrange(0, k as int)));
    }
    assert(args@.subrange(0, args@.len() as int) =~= args@);
    finish_cargo_command(&mut r, RustcTarget::Freestanding, arch);
    r
}

/// The cargo arguments that build a crate's tests for bare metal on `arch`
/// without running them: `test`, `--no-run` and `args`, then the target.
pub fn build_tests_freestanding(arch: ArchTarget, args: &Vec<Vec<u8>>) -> (r: Vec<Vec<u8>>)
    ensures
        byte_views(r@) == cargo_command(seq![test_word(), no_run_word()] + byte_views(args@), RustcTarget::Freestanding, arch),
{
    let mut r: Vec<Vec<u8>> = Vec::new();
    let t = [0x74u8, 0x65, 0x73, 0x74];
    let n = [0x2Du8, 0x2D, 0x6E, 0x6F, 0x2D, 0x72, 0x75, 0x6E];
    assert(t@ =~= test_word());
    assert(n@ =~= no_run_word());
    push_word_arg(&mut r, &t);
    push_word_arg(&mut r, &n);
    let mut k: usize = 0;
    while k < args.len()
        invariant
            0 <= k <= args@.len(),
            byte_views(r@) == seq![test_word(), no_run_word()] + byte_views(args@.subrange(0, k as int)),
        decreases args@.len() - k,
    {
        let ghost before = r@;
        let item = literal(args[k].as_slice());
        r.push(item);
        proof {
            lemma_views_push(before, item);
            lemma_views_step(args@, k as int);
        }
        k = k + 1;
        assert(byte_views(r@) =~= seq![test_word(), no_run_word()] + byte_views(args@.subrange(0, k as int)));
    }
    assert(args@.subrange(0, args@.len() as int) =~= args@);
    finish_cargo_command(&mut r, RustcTarget::Freestanding, arch);
    r
}

} // verus!

verus! {

/// What cargo reports of a build, as far as the helper reads it.
#[derive(Clone, Debug)]
pub enum CargoMessage {
    /// A compiled artifact: whether its target is a binary, the path of its
    /// executable if it has one, and the target's name.
    CompilerArtifact { is_bin: bool, executable: Option<Vec<u8>>, name: Vec<u8> },
    /// The end of the build, and whether it succeeded.
    BuildFinished { success: bool },
    /// Anything else.
    Other,
}

/// Why the executables of a build cannot be had.
#[derive(Clone, Copy, Debug, PartialEq, Eq, Structural)]
pub enum BuildError {
    /// Cargo reported no end of the build.
    NoBuildStatus,
    /// An executable was reported after the end of the build.
    MultipleExecutables,
    /// The build failed.
    BuildFailed,
}

/// What the helper reads of a message: 0 for a binary with an executable,
/// 1 for the end of a build (with its success), 2 for anything else; and
/// the executable's path and the target's name.
pub open spec fn message_view(m: CargoMessage) -> (int, bool, Seq<u8>, Seq<u8>) {
    match m {
        CargoMessage::CompilerArtifact { is_bin, executable, name } => if is_bin && executable is Some {
            (0, false, executable->0@, name@)
        } else {
            (2, false, Seq::empty(), Seq::empty())
        },
        CargoMessage::BuildFinished { success } => (1, success, Seq::empty(), Seq::empty()),
        CargoMessage::Other => (2, false, Seq::empty(), Seq::empty()),
    }
}

/// The messages that count: binaries with an executable, and ends of builds.
pub open spec fn counted(ms: Seq<(int, bool, Seq<u8>, Seq<u8>)>) -> Seq<(int, bool, Seq<u8>, Seq<u8>)>
    decreases ms.len(),
{
    if ms.len() == 0 {
        Seq::empty()
    } else {
        let rest = counted(ms.drop_last());
        if ms.last().0 == 2 { rest } else { rest.push(ms.last()) }
    }
}

/// The executables and names of the binaries among counted messages.
pub open spec fn executables(ms: Seq<(int, bool, Seq<u8>, Seq<u8>)>) -> Seq<(Seq<u8>, Seq<u8>)>
    decreases ms.len(),
{
    if ms.len() == 0 {
        Seq::empty()
    } else {
        let rest = executables(ms.drop_last());
        if ms.last().0 == 0 { rest.push((ms.last().2, ms.last().3)) } else { rest }
    }
}

/// The outcome of a build that reported `ms`: the last counted message must
/// be a successful end of the build, and the binaries before it are the
/// build's executables.
pub open spec fn build_outcome(ms: Seq<CargoMessage>) -> Result<Seq<(Seq<u8>, Seq<u8>)>, BuildError> {
    let c = counted(Seq::new(ms.len(), |i: int| message_view(ms[i])));
    if c.len() == 0 {
        Err(BuildError::NoBuildStatus)
    } else if c.last().0 != 1 {
        Err(BuildError::MultipleExecutables)
    } else if !c.last().1 {
        Err(BuildError::BuildFailed)
    } else {
        Ok(executables(c.drop_last()))
    }
}

/// The views of the pairs of byte strings `v`.
pub open spec fn pair_views(v: Seq<(Vec<u8>, Vec<u8>)>) -> Seq<(Seq<u8>, Seq<u8>)> {
    Seq::new(v.len(), |i: int| (v[i].0@, v[i].1@))
}

/// The executables that a build produced, with their targets' names, from
/// the messages `messages` that cargo reported; see [`build_outcome`].
pub fn select_executables(messages: &Vec<CargoMessage>) -> (r: Result<Vec<(Vec<u8>, Vec<u8>)>, BuildError>)
    ensures
        match (r, build_outcome(messages@)) {
            (Ok(v), Ok(e)) => pair_views(v@) == e,
            (Err(x), Err(y)) => x == y,
            _ => false,
        },
{
    let ghost mv = Seq::new(messages@.len(), |i: int| message_view(messages@[i]));
    let mut found: Vec<(Vec<u8>, Vec<u8>)> = Vec::new();
    let mut pending: Option<(Vec<u8>, Vec<u8>)> = None;
    let mut last_kind: u8 = 2;
    let mut last_success = false;
    let n = messages.len();
    let mut k: usize = 0;
    while k < n
        invariant
            n == messages@.len(),
            mv == Seq::new(messages@.len(), |i: int| message_view(messages@[i])),
            0 <= k <= n,
            ({
                let c = counted(mv.subrange(0, k as int));
                &&& (c.len() == 0 <==> last_kind == 2)
                &&& c.len() > 0 ==> c.last().0 == last_kind && c.last().1 == last_success
                &&& c.len() > 0 && last_kind == 0 ==> (pending matches Some(p) && p.0@ == c.last().2 && p.1@ == c.last().3)
                &&& pair_views(found@) == executables(if c.len() > 0 { c.drop_last() } else { c })
            }),
        decreases n - k,
    {
        let ghost c0 = counted(mv.subrange(0, k as int));
        proof {
            let s = mv.subrange(0, k as int + 1);
            assert(s.drop_last() =~= mv.subrange(0, k as int));
            assert(s.last() == message_view(messages@[k as int]));
        }
        let (kind, success, exe, name): (u8, bool, Option<Vec<u8>>, Option<Vec<u8>>) = match &messages[k] {
            CargoMessage::CompilerArtifact { is_bin, executable, name } => {
                if *is_bin && executable.is_some() {
                    (0, false, executable.clone(), Some(name.clone()))
                } else {
                    (2, false, None, None)
                }
            },
            CargoMessage::BuildFinished { success } => (1, *success, None, None),
            CargoMessage::Other => (2, false, None, None),
        };
        if kind != 2 {
            let ghost before = found@;
            if last_kind == 0 {
                match pending {
                    Some(p) => {
                        found.push(p);
                    },
                    None => {},
                }
            }
            proof {
                let c1 = counted(mv.subrange(0, k as int + 1));
                assert(c1 == c0.push(mv[k as int]));
                assert(c1.drop_last() =~= c0);
                if c0.len() > 0 {
                    assert(c0 =~= c0.drop_last().push(c0.last()));
                }
            }
            last_kind = kind;
            last_success = success;
            pending = match (exe, name) {
                (Some(e), Some(nm)) => Some((e, nm)),
                _ => None,
            };
            proof {
                assert(pair_views(found@) =~= executables(c0));
            }
        }
        k = k + 1;
    }
    assert(mv.subrange(0, n as int) =~= mv);
    if last_kind == 2 {
        return Err(BuildError::NoBuildStatus);
    }
    if last_kind != 1 {
        return Err(BuildError::MultipleExecutables);
    }
    if !last_success {
        return Err(BuildError::BuildFailed);
    }
    Ok(found)
}

} // verus!

verus! {

/// An asset of a toolchain release, as the release list gives it: each
/// field is there as text, or missing.
#[derive(Clone, Debug)]
pub struct ReleaseAsset {
    pub name: Option<Vec<u8>>,
    pub browser_download_url: Option<Vec<u8>>,
    pub digest: Option<Vec<u8>>,
}

/// A toolchain release: its tag, and its assets when they are listed.
#[derive(Clone, Debug)]
pub struct Release {
    pub tag_name: Option<Vec<u8>>,
    pub assets: Option<Vec<ReleaseAsset>>,
}

/// Whether `s` starts with `prefix`.
pub open spec fn starts_with(s: Seq<u8>, prefix: Seq<u8>) -> bool {
    prefix.len() <= s.len() && s.subrange(0, prefix.len() as int) == prefix
}

/// Whether `r` is a release of the version `latest`: its tag starts with it.
pub open spec fn is_release_of(r: Release, latest: Seq<u8>) -> bool {
    r.tag_name matches Some(t) && starts_with(t@, latest)
}

/// Whether `a` is the toolchain for building for `arch` on `host`.
pub open spec fn is_asset_for(a: ReleaseAsset, arch: ArchTarget, host: (ArchTarget, HostOS)) -> bool {
    a.name matches Some(n) && toolchain_expected_spec(arch, n@, host)
}

/// The index of the first release of `latest` among `rs`, if any.
pub open spec fn first_release(rs: Seq<Release>, latest: Seq<u8>) -> Option<int>
    decreases rs.len(),
{
    if rs.len() == 0 {
        None
    } else {
        match first_release(rs.drop_last(), latest) {
            Some(i) => Some(i),
            None => if is_release_of(rs.last(), latest) { Some(rs.len() - 1) } else { None },
        }
    }
}

/// The index of the first asset for `arch` on `host` among `assets`, if any.
pub open spec fn first_asset(assets: Seq<ReleaseAsset>, arch: ArchTarget, host: (ArchTarget, HostOS)) -> Option<int>
    decreases assets.len(),
{
    if assets.len() == 0 {
        None
    } else {
        match first_asset(assets.drop_last(), arch, host) {
            Some(i) => Some(i),
            None => if is_asset_for(assets.last(), arch, host) { Some(assets.len() - 1) } else { None },
        }
    }
}

proof fn lemma_first_release(rs: Seq<Release>, latest: Seq<u8>, k: int)
    requires
        0 <= k <= rs.len(),
        forall|j: int| 0 <= j < k ==> !is_release_of(#[trigger] rs[j], latest),
    ensures
        (k < rs.len() && is_release_of(rs[k], latest)) ==> first_release(rs, latest) == Some(k),
        k == rs.len() ==> first_release(rs, latest) is None,
    decreases rs.len(),
{
    if rs.len() > 0 {
        if k < rs.len() {
            lemma_first_release(rs.drop_last(), latest, k);
        } else {
            lemma_first_release(rs.drop_last(), latest, k - 1);
        }
    }
}

proof fn lemma_first_asset(a: Seq<ReleaseAsset>, arch: ArchTarget, host: (ArchTarget, HostOS), k: int)
    requires
        0 <= k <= a.len(),
        forall|j: int| 0 <= j < k ==> !is_asset_for(#[trigger] a[j], arch, host),
    ensures
        (k < a.len() && is_asset_for(a[k], arch, host)) ==> first_asset(a, arch, host) == Some(k),
        k == a.len() ==> first_asset(a, arch, host) is None,
    decreases a.len(),
{
    if a.len() > 0 {
        if k < a.len() {
            lemma_first_asset(a.drop_last(), arch, host, k);
        } else {
            lemma_first_asset(a.drop_last(), arch, host, k - 1);
        }
    }
}

/// The toolchain to download, from the release list `releases`: in the first
/// release of `latest`, the first asset for building for `arch` on `host`,
/// with its download address, digest and name when it has them all.
pub open spec fn pick_asset_spec(rs: Seq<Release>, latest: Seq<u8>, arch: ArchTarget, host: (ArchTarget, HostOS)) -> Option<
    (Seq<u8>, Seq<u8>, Seq<u8>),
> {
    match first_release(rs, latest) {
        None => None,
        Some(i) => match rs[i].assets {
            None => None,
            Some(assets) => match first_asset(assets@, arch, host) {
                None => None,
                Some(j) => {
                    let a = assets@[j];
                    match (a.browser_download_url, a.digest, a.name) {
                        (Some(u), Some(d), Some(n)) => Some((u@, d@, n@)),
                        _ => None,
                    }
                },
            },
        },
    }
}

/// Whether `s` starts with `prefix`.
pub fn bytes_start_with(s: &[u8], prefix: &[u8]) -> (r: bool)
    ensures
        r == starts_with(s@, prefix@),
{
    if prefix.len() > s.len() {
        return false;
    }
    let r = crate::net::bytes_match_at(s, 0, prefix);
    assert(s@.subrange(0, 0 + prefix@.len() as int) =~= s@.subrange(0, prefix@.len() as int));
    r
}

fn asset_triple(a: &ReleaseAsset) -> (r: Option<(Vec<u8>, Vec<u8>, Vec<u8>)>)
    ensures
        match (a.browser_download_url, a.digest, a.name) {
            (Some(u), Some(d), Some(n)) => r matches Some((x, y, z)) && x@ == u@ && y@ == d@ && z@ == n@,
            _ => r is None,
        },
{
    match (&a.browser_download_url, &a.digest, &a.name) {
        (Some(u), Some(d), Some(n)) => Some((u.clone(), d.clone(), n.clone())),
        _ => None,
    }
}

fn find_asset(assets: &Vec<ReleaseAsset>, arch: ArchTarget, host: (ArchTarget, HostOS)) -> (r: Option<usize>)
    ensures
        r matches Some(k) ==> k < assets@.len() && first_asset(assets@, arch, host) == Some(k as int),
        r is None ==> first_asset(assets@, arch, host) is None,
{
    let mut k: usize = 0;
    while k < assets.len()
        invariant
            0 <= k <= assets@.len(),
            forall|j: int| 0 <= j < k ==> !is_asset_for(#[trigger] assets@[j], arch, host),
        decreases assets@.len() - k,
    {
        let fits = match &assets[k].name {
            Some(n) => toolchain_is_expected(arch, n.as_slice(), host),
            None => false,
        };
        assert(fits == is_asset_for(assets@[k as int], arch, host));
        if fits {
            proof {
                lemma_first_asset(assets@, arch, host, k as int);
            }
            return Some(k);
        }
        k = k + 1;
    }
    proof {
        lemma_first_asset(assets@, arch, host, k as int);
    }
    None
}

/// The download address, digest and name of the toolchain for building for
/// `arch` on `host`; see [`pick_asset_spec`].
pub fn pick_toolchain_asset(releases: &Vec<Release>, latest: &[u8], arch: ArchTarget, host: (ArchTarget, HostOS)) -> (r:
    Option<(Vec<u8>, Vec<u8>, Vec<u8>)>)
    ensures
        match (r, pick_asset_spec(releases@, latest@, arch, host)) {
            (Some((u, d, n)), Some((u2, d2, n2))) => u@ == u2 && d@ == d2 && n@ == n2,
            (None, None) => true,
            _ => false,
        },
{
    let mut i: usize = 0;
    while i < releases.len()
        invariant
            0 <= i <= releases@.len(),
            forall|j: int| 0 <= j < i ==> !is_release_of(#[trigger] releases@[j], latest@),
        decreases releases@.len() - i,
    {
        let is_it = match &releases[i].tag_name {
            Some(t) => bytes_start_with(t.as_slice(), latest),
            None => false,
        };
        if is_it {
            proof {
                lemma_first_release(releases@, latest@, i as int);
            }
            let assets = match &releases[i].assets {
                Some(a) => a,
                None => return None,
            };
            assert(releases@[i as int].assets == Some(*assets));
            let found = find_asset(assets, arch, host);
            match found {
                Some(k) => {
                    return asset_triple(&assets[k]);
                },
                None => {
                    return None;
                },
            }
        }
        i = i + 1;
    }
    proof {
        lemma_first_release(releases@, latest@, i as int);
    }
    None
}

} // verus!
