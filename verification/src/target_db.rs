//! The built-in database of Rust target triples.

use vstd::prelude::*;
use vstd::string::*;
use crate::compat::string_views;
use crate::text::{decimal, has_substring, pad_right, push_decimal, push_padded, str_contains, str_eq};

verus! {

/// Byte order of a target.
#[derive(Clone, Copy, Debug, PartialEq, Eq, Structural)]
pub enum Endianness {
    Little,
    Big,
}

/// The name of a byte order as printed: `little` or `big`.
pub open spec fn endianness_name(e: Endianness) -> Seq<char> {
    match e {
        Endianness::Little => "little"@,
        Endianness::Big => "big"@,
    }
}

impl Endianness {
    /// The printed name of this byte order.
    pub fn to_string(&self) -> (s: String)
        ensures
            s@ == endianness_name(*self),
    {
        match self {
            Endianness::Little => String::from_str("little"),
            Endianness::Big => String::from_str("big"),
        }
    }
}

/// Properties of a Rust target triple.
#[derive(Debug, Clone)]
pub struct TargetInfo {
    pub triple: String,
    pub os: String,
    pub arch: String,
    pub endianness: Endianness,
    pub pointer_width: u8,
    /// A 0-100 heuristic of how widely the target is used.
    pub popularity: u32,
}

/// The mathematical content of a [`TargetInfo`].
pub struct TargetSpec {
    pub triple: Seq<char>,
    pub os: Seq<char>,
    pub arch: Seq<char>,
    pub endianness: Endianness,
    pub pointer_width: u8,
    pub popularity: u32,
}

impl View for TargetInfo {
    type V = TargetSpec;

    open spec fn view(&self) -> TargetSpec {
        TargetSpec {
            triple: self.triple@,
            os: self.os@,
            arch: self.arch@,
            endianness: self.endianness,
            pointer_width: self.pointer_width,
            popularity: self.popularity,
        }
    }
}

/// The one-line description of a target:
/// `{triple:<30} os={os:<12} arch={arch:<10} endian={endian} ptr={width}-bit  popularity={p}`;
/// the byte-order word is written as it is, without padding.
pub open spec fn describe_target(t: TargetSpec) -> Seq<char> {
    pad_right(t.triple, 30) + " os="@ + pad_right(t.os, 12) + " arch="@ + pad_right(t.arch, 10)
        + " endian="@ + endianness_name(t.endianness) + " ptr="@ + decimal(
        t.pointer_width as nat,
    ) + "-bit  popularity="@ + decimal(t.popularity as nat)
}

impl TargetInfo {
    /// The one-line description of this target.
    pub fn to_string(&self) -> (s: String)
        ensures
            s@ == describe_target(self@),
    {
        let mut s = String::new();
        push_padded(&mut s, self.triple.as_str(), 30);
        s.append(" os=");
        push_padded(&mut s, self.os.as_str(), 12);
        s.append(" arch=");
        push_padded(&mut s, self.arch.as_str(), 10);
        s.append(" endian=");
        let e = self.endianness.to_string();
        s.append(e.as_str());
        s.append(" ptr=");
        push_decimal(&mut s, self.pointer_width as u64);
        s.append("-bit  popularity=");
        push_decimal(&mut s, self.popularity as u64);
        assert(s@ =~= describe_target(self@));
        s
    }
}

/// The views of a sequence of targets.
pub open spec fn views(s: Seq<TargetInfo>) -> Seq<TargetSpec> {
    s.map_values(|t: TargetInfo| t@)
}

/// The views of a sequence of borrowed targets.
pub open spec fn ref_views(s: Seq<&TargetInfo>) -> Seq<TargetSpec> {
    s.map_values(|t: &TargetInfo| t@)
}

pub open spec fn row(
    triple: Seq<char>,
    os: Seq<char>,
    arch: Seq<char>,
    endianness: Endianness,
    pointer_width: u8,
    popularity: u32,
) -> TargetSpec {
    TargetSpec { triple, os, arch, endianness, pointer_width, popularity }
}

/// The targets that the database is built with, in order.
pub open spec fn builtin_targets_spec() -> Seq<TargetSpec> {
    seq![
        row("x86_64-unknown-linux-gnu"@, "linux"@, "x86_64"@, Endianness::Little, 64, 95),
        row("x86_64-unknown-linux-musl"@, "linux"@, "x86_64"@, Endianness::Little, 64, 80),
        row("aarch64-unknown-linux-gnu"@, "linux"@, "aarch64"@, Endianness::Little, 64, 85),
        row("aarch64-unknown-linux-musl"@, "linux"@, "aarch64"@, Endianness::Little, 64, 70),
        row("armv7-unknown-linux-gnueabihf"@, "linux"@, "armv7"@, Endianness::Little, 32, 55),
        row("arm-unknown-linux-gnueabihf"@, "linux"@, "arm"@, Endianness::Little, 32, 30),
        row("i686-unknown-linux-gnu"@, "linux"@, "x86"@, Endianness::Little, 32, 35),
        row("riscv64gc-unknown-linux-gnu"@, "linux"@, "riscv64"@, Endianness::Little, 64, 25),
        row("x86_64-apple-darwin"@, "macos"@, "x86_64"@, Endianness::Little, 64, 80),
        row("aarch64-apple-darwin"@, "macos"@, "aarch64"@, Endianness::Little, 64, 85),
        row("x86_64-pc-windows-msvc"@, "windows"@, "x86_64"@, Endianness::Little, 64, 80),
        row("x86_64-pc-windows-gnu"@, "windows"@, "x86_64"@, Endianness::Little, 64, 40),
        row("i686-pc-windows-msvc"@, "windows"@, "x86"@, Endianness::Little, 32, 30),
        row("aarch64-pc-windows-msvc"@, "windows"@, "aarch64"@, Endianness::Little, 64, 50),
        row("wasm32-unknown-unknown"@, "unknown"@, "wasm32"@, Endianness::Little, 32, 65),
        row("wasm32-wasip1"@, "wasi"@, "wasm32"@, Endianness::Little, 32, 30),
        row("x86_64-unknown-freebsd"@, "freebsd"@, "x86_64"@, Endianness::Little, 64, 25),
        row("x86_64-unknown-netbsd"@, "netbsd"@, "x86_64"@, Endianness::Little, 64, 15),
        row("x86_64-sun-solaris"@, "solaris"@, "x86_64"@, Endianness::Little, 64, 10),
        row("aarch64-linux-android"@, "android"@, "aarch64"@, Endianness::Little, 64, 55),
        row("x86_64-linux-android"@, "android"@, "x86_64"@, Endianness::Little, 64, 40),
        row("thumbv7em-none-eabihf"@, "none"@, "thumbv7em"@, Endianness::Little, 32, 20),
        row("powerpc64-unknown-linux-gnu"@, "linux"@, "powerpc64"@, Endianness::Big, 64, 15),
        row("s390x-unknown-linux-gnu"@, "linux"@, "s390x"@, Endianness::Big, 64, 10),
        row("thumbv6m-none-eabi"@, "none"@, "thumbv6m"@, Endianness::Little, 32, 25),
        row("thumbv7m-none-eabi"@, "none"@, "thumbv7m"@, Endianness::Little, 32, 20),
        row("thumbv7em-none-eabi"@, "none"@, "thumbv7em"@, Endianness::Little, 32, 15),
        row("thumbv8m.main-none-eabihf"@, "none"@, "thumbv8m.main"@, Endianness::Little, 32, 10),
        row("riscv32imac-unknown-none-elf"@, "none"@, "riscv32"@, Endianness::Little, 32, 20),
        row("riscv32imc-unknown-none-elf"@, "none"@, "riscv32"@, Endianness::Little, 32, 15),
        row("aarch64-unknown-none"@, "none"@, "aarch64"@, Endianness::Little, 64, 15),
        row("x86_64-unknown-none"@, "none"@, "x86_64"@, Endianness::Little, 64, 10),
        row("aarch64-apple-ios"@, "ios"@, "aarch64"@, Endianness::Little, 64, 50),
        row("aarch64-apple-ios-sim"@, "ios"@, "aarch64"@, Endianness::Little, 64, 25),
        row("x86_64-apple-ios"@, "ios"@, "x86_64"@, Endianness::Little, 64, 20),
        row("armv7-linux-androideabi"@, "android"@, "armv7"@, Endianness::Little, 32, 35),
        row("i686-linux-android"@, "android"@, "x86"@, Endianness::Little, 32, 20),
        row("i686-pc-windows-gnu"@, "windows"@, "x86"@, Endianness::Little, 32, 15),
        row("x86_64-unknown-openbsd"@, "openbsd"@, "x86_64"@, Endianness::Little, 64, 10),
        row("x86_64-unknown-illumos"@, "illumos"@, "x86_64"@, Endianness::Little, 64, 5),
        row("powerpc64le-unknown-linux-gnu"@, "linux"@, "powerpc64le"@, Endianness::Little, 64, 20),
        row("powerpc-unknown-linux-gnu"@, "linux"@, "powerpc"@, Endianness::Big, 32, 5),
        row("mips-unknown-linux-gnu"@, "linux"@, "mips"@, Endianness::Big, 32, 5),
        row("mipsel-unknown-linux-gnu"@, "linux"@, "mipsel"@, Endianness::Little, 32, 5),
        row("sparc64-unknown-linux-gnu"@, "linux"@, "sparc64"@, Endianness::Big, 64, 5),
        row("loongarch64-unknown-linux-gnu"@, "linux"@, "loongarch64"@, Endianness::Little, 64, 10),
        row("armv7-unknown-linux-musleabihf"@, "linux"@, "armv7"@, Endianness::Little, 32, 25),
        row("arm-unknown-linux-musleabihf"@, "linux"@, "arm"@, Endianness::Little, 32, 15),
        row("i686-unknown-linux-musl"@, "linux"@, "x86"@, Endianness::Little, 32, 15),
        row("riscv64gc-unknown-linux-musl"@, "linux"@, "riscv64"@, Endianness::Little, 64, 10),
        row("x86_64-unknown-linux-gnux32"@, "linux"@, "x86_64"@, Endianness::Little, 32, 5),
        row("wasm32-unknown-emscripten"@, "emscripten"@, "wasm32"@, Endianness::Little, 32, 20),
        row("wasm32-wasip2"@, "wasi"@, "wasm32"@, Endianness::Little, 32, 20),
    ]
}

/// The triples of the default CI targets, in the order they are suggested.
pub open spec fn popular_triples() -> Seq<Seq<char>> {
    seq![
        "x86_64-unknown-linux-gnu"@,
        "aarch64-unknown-linux-gnu"@,
        "x86_64-apple-darwin"@,
        "aarch64-apple-darwin"@,
        "x86_64-pc-windows-msvc"@,
        "x86_64-unknown-linux-musl"@,
        "aarch64-unknown-linux-musl"@,
        "armv7-unknown-linux-gnueabihf"@,
        "wasm32-unknown-unknown"@,
    ]
}

/// The first target of `entries` whose triple is `triple`, if any.
pub open spec fn lookup(entries: Seq<TargetSpec>, triple: Seq<char>) -> Option<TargetSpec>
    decreases entries.len(),
{
    if entries.len() == 0 {
        None
    } else if entries[0].triple == triple {
        Some(entries[0])
    } else {
        lookup(entries.drop_first(), triple)
    }
}

/// Whether a target passes the optional OS and architecture filters; each filter
/// matches when it occurs as a substring of the target's field.
pub open spec fn passes_filter(t: TargetSpec, os: Option<Seq<char>>, arch: Option<Seq<char>>) -> bool {
    &&& (match os {
        Some(o) => has_substring(t.os, o),
        None => true,
    })
    &&& (match arch {
        Some(a) => has_substring(t.arch, a),
        None => true,
    })
}

/// The targets of `entries` that pass the filters, in order.
pub open spec fn filter_targets(
    entries: Seq<TargetSpec>,
    os: Option<Seq<char>>,
    arch: Option<Seq<char>>,
) -> Seq<TargetSpec>
    decreases entries.len(),
{
    if entries.len() == 0 {
        Seq::empty()
    } else {
        let rest = filter_targets(entries.drop_last(), os, arch);
        if passes_filter(entries.last(), os, arch) {
            rest.push(entries.last())
        } else {
            rest
        }
    }
}

/// For each triple of `triples` in order, the first target with that triple, where
/// there is one.
pub open spec fn select_triples(entries: Seq<TargetSpec>, triples: Seq<Seq<char>>) -> Seq<TargetSpec>
    decreases triples.len(),
{
    if triples.len() == 0 {
        Seq::empty()
    } else {
        let rest = select_triples(entries, triples.drop_last());
        match lookup(entries, triples.last()) {
            Some(t) => rest.push(t),
            None => rest,
        }
    }
}

/// The text of an optional filter.
pub open spec fn opt_view(o: Option<&str>) -> Option<Seq<char>> {
    match o {
        Some(s) => Some(s@),
        None => None,
    }
}

/// A lookup finds a target exactly when some target has the triple, and what it
/// finds has that triple and is one of the targets.
pub proof fn lemma_lookup_finds_triple(entries: Seq<TargetSpec>, triple: Seq<char>)
    ensures
        lookup(entries, triple) is Some <==> exists|k: int|
            0 <= k < entries.len() && (#[trigger] entries[k]).triple == triple,
        lookup(entries, triple) matches Some(t) ==> t.triple == triple && entries.contains(t),
    decreases entries.len(),
{
    if entries.len() > 0 {
        let rest = entries.drop_first();
        lemma_lookup_finds_triple(rest, triple);
        if entries[0].triple != triple {
            if exists|k: int| 0 <= k < entries.len() && (#[trigger] entries[k]).triple == triple {
                let k = choose|k: int| 0 <= k < entries.len() && (#[trigger] entries[k]).triple
                    == triple;
                assert(rest[k - 1] == entries[k]);
            }
            if exists|k: int| 0 <= k < rest.len() && (#[trigger] rest[k]).triple == triple {
                let k = choose|k: int| 0 <= k < rest.len() && (#[trigger] rest[k]).triple == triple;
                assert(entries[k + 1] == rest[k]);
            }
            if lookup(rest, triple) is Some {
                let t = lookup(rest, triple)->0;
                let j = choose|j: int| 0 <= j < rest.len() && rest[j] == t;
                assert(entries[j + 1] == t);
            }
        } else {
            assert(entries[0] == entries[0]);
        }
    }
}

/// Filtering keeps exactly the targets that pass the filters: each kept target
/// passes them and is one of the targets, and each target that passes them is kept.
pub proof fn lemma_filter_exact(
    entries: Seq<TargetSpec>,
    os: Option<Seq<char>>,
    arch: Option<Seq<char>>,
)
    ensures
        forall|k: int|
            0 <= k < filter_targets(entries, os, arch).len() ==> passes_filter(
                #[trigger] filter_targets(entries, os, arch)[k],
                os,
                arch,
            ) && entries.contains(filter_targets(entries, os, arch)[k]),
        forall|j: int|
            0 <= j < entries.len() && passes_filter(#[trigger] entries[j], os, arch)
                ==> filter_targets(entries, os, arch).contains(entries[j]),
        filter_targets(entries, os, arch).len() <= entries.len(),
    decreases entries.len(),
{
    if entries.len() > 0 {
        let d = entries.drop_last();
        lemma_filter_exact(d, os, arch);
        let prev = filter_targets(d, os, arch);
        let cur = filter_targets(entries, os, arch);
        assert forall|k: int| 0 <= k < cur.len() implies passes_filter(#[trigger] cur[k], os, arch)
            && entries.contains(cur[k]) by {
            if k < prev.len() {
                assert(cur[k] == prev[k]);
                let j = choose|j: int| 0 <= j < d.len() && d[j] == prev[k];
                assert(entries[j] == d[j]);
            } else {
                assert(cur[k] == entries[entries.len() - 1]);
            }
        }
        assert forall|j: int| 0 <= j < entries.len() && passes_filter(#[trigger] entries[j], os, arch)
            implies cur.contains(entries[j]) by {
            if j < d.len() {
                assert(d[j] == entries[j]);
                let k = choose|k: int| 0 <= k < prev.len() && prev[k] == d[j];
                assert(cur[k] == prev[k]);
            } else {
                assert(cur[cur.len() - 1] == entries[j]);
            }
        }
    }
}

/// A target is kept by the filters exactly when its OS field contains the OS
/// filter and its architecture field contains the architecture filter, each only
/// where given; the triple plays no part. Everything kept is one of the targets.
pub proof fn lemma_filter_matches_fields(
    entries: Seq<TargetSpec>,
    os: Option<Seq<char>>,
    arch: Option<Seq<char>>,
)
    ensures
        forall|j: int|
            0 <= j < entries.len() ==> (filter_targets(entries, os, arch).contains(
                #[trigger] entries[j],
            ) <==> ((os is None || has_substring(entries[j].os, os->0)) && (arch is None
                || has_substring(entries[j].arch, arch->0)))),
        forall|k: int|
            0 <= k < filter_targets(entries, os, arch).len() ==> entries.contains(
                #[trigger] filter_targets(entries, os, arch)[k],
            ),
{
    lemma_filter_exact(entries, os, arch);
    let f = filter_targets(entries, os, arch);
    assert forall|j: int| 0 <= j < entries.len() implies (f.contains(#[trigger] entries[j]) <==> ((
    os is None || has_substring(entries[j].os, os->0)) && (arch is None || has_substring(
        entries[j].arch,
        arch->0,
    )))) by {
        if f.contains(entries[j]) {
            let k = choose|k: int| 0 <= k < f.len() && f[k] == entries[j];
            assert(passes_filter(f[k], os, arch));
        }
    }
}

/// In-memory database of known Rust target triples.
pub struct TargetDb {
    targets: Vec<TargetInfo>,
}

impl View for TargetDb {
    type V = Seq<TargetSpec>;

    closed spec fn view(&self) -> Seq<TargetSpec> {
        views(self.targets@)
    }
}

fn target(
    triple: &str,
    os: &str,
    arch: &str,
    endianness: Endianness,
    pointer_width: u8,
    popularity: u32,
) -> (t: TargetInfo)
    ensures
        t@ == row(triple@, os@, arch@, endianness, pointer_width, popularity),
{
    TargetInfo {
        triple: String::from_str(triple),
        os: String::from_str(os),
        arch: String::from_str(arch),
        endianness,
        pointer_width,
        popularity,
    }
}

impl TargetDb {
    /// Create a new database populated with common targets.
    pub fn new() -> (db: Self)
        ensures
            db@ == builtin_targets_spec(),
    {
        TargetDb { targets: Self::builtin_targets() }
    }

    /// Look up a target by its triple: the first target with that triple.
    pub fn get(&self, triple: &str) -> (r: Option<&TargetInfo>)
        ensures
            match r {
                Some(t) => lookup(self@, triple@) == Some(t@),
                None => lookup(self@, triple@) is None,
            },
    {
        let n = self.targets.len();
        let mut i: usize = 0;
        assert(self@.skip(0) =~= self@);
        while i < n
            invariant
                n == self.targets@.len(),
                i <= n,
                lookup(self@, triple@) == lookup(self@.skip(i as int), triple@),
            decreases n - i,
        {
            assert(self@.skip(i as int)[0] == self.targets@[i as int]@);
            if str_eq(self.targets[i].triple.as_str(), triple) {
                return Some(&self.targets[i]);
            }
            assert(self@.skip(i as int).drop_first() =~= self@.skip(i + 1));
            i = i + 1;
        }
        None
    }

    /// Return all targets.
    pub fn all(&self) -> (r: &[TargetInfo])
        ensures
            views(r@) == self@,
    {
        self.targets.as_slice()
    }

    /// Filter targets by OS and/or architecture: the targets whose OS contains `os`
    /// and whose architecture contains `arch`, where those are given, in order.
    pub fn filter(&self, os: Option<&str>, arch: Option<&str>) -> (r: Vec<&TargetInfo>)
        ensures
            ref_views(r@) == filter_targets(self@, opt_view(os), opt_view(arch)),
    {
        let n = self.targets.len();
        let mut out: Vec<&TargetInfo> = Vec::new();
        let mut i: usize = 0;
        while i < n
            invariant
                n == self.targets@.len(),
                i <= n,
                ref_views(out@) == filter_targets(self@.take(i as int), opt_view(os), opt_view(arch)),
            decreases n - i,
        {
            let t = &self.targets[i];
            let os_match = match os {
                Some(o) => str_contains(t.os.as_str(), o),
                None => true,
            };
            let arch_match = match arch {
                Some(a) => str_contains(t.arch.as_str(), a),
                None => true,
            };
            proof {
                assert(self@.take(i + 1).drop_last() =~= self@.take(i as int));
                assert(self@.take(i + 1).last() == t@);
            }
            if os_match && arch_match {
                out.push(t);
            }
            i = i + 1;
            assert(ref_views(out@) =~= filter_targets(self@.take(i as int), opt_view(os), opt_view(arch)));
        }
        assert(self@.take(n as int) =~= self@);
        out
    }

    /// Return the default "popular" targets for CI: those of the fixed list of
    /// popular triples that the database holds, in the list's order.
    pub fn popular_targets(&self) -> (r: Vec<&TargetInfo>)
        ensures
            ref_views(r@) == select_triples(self@, popular_triples()),
    {
        let popular: [&str; 9] = [
            "x86_64-unknown-linux-gnu",
            "aarch64-unknown-linux-gnu",
            "x86_64-apple-darwin",
            "aarch64-apple-darwin",
            "x86_64-pc-windows-msvc",
            "x86_64-unknown-linux-musl",
            "aarch64-unknown-linux-musl",
            "armv7-unknown-linux-gnueabihf",
            "wasm32-unknown-unknown",
        ];
        let ghost names = popular@.map_values(|s: &str| s@);
        assert(names =~= popular_triples());
        let mut out: Vec<&TargetInfo> = Vec::new();
        let mut i: usize = 0;
        while i < 9
            invariant
                i <= 9,
                popular@.len() == 9,
                names == popular@.map_values(|s: &str| s@),
                ref_views(out@) == select_triples(self@, names.take(i as int)),
            decreases 9 - i,
        {
            let found = self.get(popular[i]);
            proof {
                assert(names.take(i + 1).drop_last() =~= names.take(i as int));
                assert(names.take(i + 1).last() == popular@[i as int]@);
            }
            match found {
                Some(t) => {
                    out.push(t);
                },
                None => {},
            }
            i = i + 1;
            assert(ref_views(out@) =~= select_triples(self@, names.take(i as int)));
        }
        assert(names.take(9) =~= names);
        out
    }

    fn builtin_targets() -> (v: Vec<TargetInfo>)
        ensures
            views(v@) == builtin_targets_spec(),
    {
        let v = vec![
            target("x86_64-unknown-linux-gnu", "linux", "x86_64", Endianness::Little, 64, 95),
            target("x86_64-unknown-linux-musl", "linux", "x86_64", Endianness::Little, 64, 80),
            target("aarch64-unknown-linux-gnu", "linux", "aarch64", Endianness::Little, 64, 85),
            target("aarch64-unknown-linux-musl", "linux", "aarch64", Endianness::Little, 64, 70),
            target("armv7-unknown-linux-gnueabihf", "linux", "armv7", Endianness::Little, 32, 55),
            target("arm-unknown-linux-gnueabihf", "linux", "arm", Endianness::Little, 32, 30),
            target("i686-unknown-linux-gnu", "linux", "x86", Endianness::Little, 32, 35),
            target("riscv64gc-unknown-linux-gnu", "linux", "riscv64", Endianness::Little, 64, 25),
            target("x86_64-apple-darwin", "macos", "x86_64", Endianness::Little, 64, 80),
            target("aarch64-apple-darwin", "macos", "aarch64", Endianness::Little, 64, 85),
            target("x86_64-pc-windows-msvc", "windows", "x86_64", Endianness::Little, 64, 80),
            target("x86_64-pc-windows-gnu", "windows", "x86_64", Endianness::Little, 64, 40),
            target("i686-pc-windows-msvc", "windows", "x86", Endianness::Little, 32, 30),
            target("aarch64-pc-windows-msvc", "windows", "aarch64", Endianness::Little, 64, 50),
            target("wasm32-unknown-unknown", "unknown", "wasm32", Endianness::Little, 32, 65),
            target("wasm32-wasip1", "wasi", "wasm32", Endianness::Little, 32, 30),
            target("x86_64-unknown-freebsd", "freebsd", "x86_64", Endianness::Little, 64, 25),
            target("x86_64-unknown-netbsd", "netbsd", "x86_64", Endianness::Little, 64, 15),
            target("x86_64-sun-solaris", "solaris", "x86_64", Endianness::Little, 64, 10),
            target("aarch64-linux-android", "android", "aarch64", Endianness::Little, 64, 55),
            target("x86_64-linux-android", "android", "x86_64", Endianness::Little, 64, 40),
            target("thumbv7em-none-eabihf", "none", "thumbv7em", Endianness::Little, 32, 20),
            target("powerpc64-unknown-linux-gnu", "linux", "powerpc64", Endianness::Big, 64, 15),
            target("s390x-unknown-linux-gnu", "linux", "s390x", Endianness::Big, 64, 10),
            target("thumbv6m-none-eabi", "none", "thumbv6m", Endianness::Little, 32, 25),
            target("thumbv7m-none-eabi", "none", "thumbv7m", Endianness::Little, 32, 20),
            target("thumbv7em-none-eabi", "none", "thumbv7em", Endianness::Little, 32, 15),
            target("thumbv8m.main-none-eabihf", "none", "thumbv8m.main", Endianness::Little, 32, 10),
            target("riscv32imac-unknown-none-elf", "none", "riscv32", Endianness::Little, 32, 20),
            target("riscv32imc-unknown-none-elf", "none", "riscv32", Endianness::Little, 32, 15),
            target("aarch64-unknown-none", "none", "aarch64", Endianness::Little, 64, 15),
            target("x86_64-unknown-none", "none", "x86_64", Endianness::Little, 64, 10),
            target("aarch64-apple-ios", "ios", "aarch64", Endianness::Little, 64, 50),
            target("aarch64-apple-ios-sim", "ios", "aarch64", Endianness::Little, 64, 25),
            target("x86_64-apple-ios", "ios", "x86_64", Endianness::Little, 64, 20),
            target("armv7-linux-androideabi", "android", "armv7", Endianness::Little, 32, 35),
            target("i686-linux-android", "android", "x86", Endianness::Little, 32, 20),
            target("i686-pc-windows-gnu", "windows", "x86", Endianness::Little, 32, 15),
            target("x86_64-unknown-openbsd", "openbsd", "x86_64", Endianness::Little, 64, 10),
            target("x86_64-unknown-illumos", "illumos", "x86_64", Endianness::Little, 64, 5),
            target("powerpc64le-unknown-linux-gnu", "linux", "powerpc64le", Endianness::Little, 64, 20),
            target("powerpc-unknown-linux-gnu", "linux", "powerpc", Endianness::Big, 32, 5),
            target("mips-unknown-linux-gnu", "linux", "mips", Endianness::Big, 32, 5),
            target("mipsel-unknown-linux-gnu", "linux", "mipsel", Endianness::Little, 32, 5),
            target("sparc64-unknown-linux-gnu", "linux", "sparc64", Endianness::Big, 64, 5),
            target("loongarch64-unknown-linux-gnu", "linux", "loongarch64", Endianness::Little, 64, 10),
            target("armv7-unknown-linux-musleabihf", "linux", "armv7", Endianness::Little, 32, 25),
            target("arm-unknown-linux-musleabihf", "linux", "arm", Endianness::Little, 32, 15),
            target("i686-unknown-linux-musl", "linux", "x86", Endianness::Little, 32, 15),
            target("riscv64gc-unknown-linux-musl", "linux", "riscv64", Endianness::Little, 64, 10),
            target("x86_64-unknown-linux-gnux32", "linux", "x86_64", Endianness::Little, 32, 5),
            target("wasm32-unknown-emscripten", "emscripten", "wasm32", Endianness::Little, 32, 20),
            target("wasm32-wasip2", "wasi", "wasm32", Endianness::Little, 32, 20),
        ];
        assert(views(v@) =~= builtin_targets_spec());
        v
    }
}


/// The lines that list targets: a notice when there are none, else a count, an
/// empty line, and one indented description per target.
pub open spec fn listing_lines(ts: Seq<TargetSpec>) -> Seq<Seq<char>> {
    if ts.len() == 0 {
        seq!["No targets found matching filters."@]
    } else {
        seq!["Known Rust target triples ("@ + decimal(ts.len()) + " found):"@, Seq::empty()]
            + ts.map_values(|t: TargetSpec| "  "@ + describe_target(t))
    }
}

/// List targets, optionally filtered by OS and architecture: the lines to print.
pub fn list_targets(os: Option<&str>, arch: Option<&str>) -> (r: Vec<String>)
    ensures
        string_views(r@) == listing_lines(
            filter_targets(builtin_targets_spec(), opt_view(os), opt_view(arch)),
        ),
{
    let db = TargetDb::new();
    let targets = db.filter(os, arch);
    let ghost ts = ref_views(targets@);
    let mut out: Vec<String> = Vec::new();
    if targets.len() == 0 {
        out.push(String::from_str("No targets found matching filters."));
        assert(string_views(out@) =~= listing_lines(ts));
        return out;
    }
    let mut head = String::from_str("Known Rust target triples (");
    push_decimal(&mut head, targets.len() as u64);
    head.append(" found):");
    out.push(head);
    out.push(String::new());
    let mut i: usize = 0;
    assert(string_views(out@) =~= seq![head@, Seq::<char>::empty()] + ts.take(0).map_values(
        |t: TargetSpec| "  "@ + describe_target(t),
    ));
    while i < targets.len()
        invariant
            i <= targets@.len(),
            ts == ref_views(targets@),
            string_views(out@) == seq![head@, Seq::<char>::empty()] + ts.take(i as int).map_values(
                |t: TargetSpec| "  "@ + describe_target(t),
            ),
        decreases targets@.len() - i,
    {
        let mut line = String::from_str("  ");
        let d = targets[i].to_string();
        line.append(d.as_str());
        let ghost before = out@;
        out.push(line);
        assert(ts[i as int] == targets@[i as int]@);
        assert(string_views(out@) =~= string_views(before).push(line@));
        assert(ts.take(i + 1).map_values(|t: TargetSpec| "  "@ + describe_target(t)) =~= ts.take(
            i as int,
        ).map_values(|t: TargetSpec| "  "@ + describe_target(t)).push(line@));
        i = i + 1;
    }
    assert(ts.take(targets@.len() as int) =~= ts);
    assert(string_views(out@) =~= listing_lines(ts));
    out
}

} // verus!
