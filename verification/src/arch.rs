//! Conversion of Arch Linux recipes to the Rookery `.rook` format: the
//! name-mapping tables, the dependency codec, TOML string escaping, and
//! the recipe emitter.

use vstd::prelude::*;
use crate::errs::RookError;
use crate::pkgbuild::{map_lookup, VarMap};
use crate::pkgbuild::{
    checksums_spec, expand_spec, parse_ok, release_spec, version_spec, Pkgbuild,
};
use crate::text::{
    chars_eq, chars_to_string, ends_with_spec, find_in, find_sub, join_sep, join_with,
    format_usize, push_char, replace_all, replace_spec, starts_with_chars, starts_with_spec,
    str_to_chars, trim_chars, trim_spec, u32_dec_spec,
};

verus! {

/// The static translation table from Arch package names to Rookery names;
/// `_SKIP_` marks a package that is not converted.
pub open spec fn name_map_spec() -> Seq<(Seq<char>, Seq<char>)> {
    seq![
        ("linux"@, "_SKIP_"@),
        ("linux-headers"@, "_SKIP_"@),
        ("linux-lts"@, "_SKIP_"@),
        ("linux-lts-headers"@, "_SKIP_"@),
        ("linux-zen"@, "_SKIP_"@),
        ("linux-hardened"@, "_SKIP_"@),
        ("gcc"@, "_SKIP_"@),
        ("gcc-libs"@, "_SKIP_"@),
        ("gcc-fortran"@, "_SKIP_"@),
        ("gcc-ada"@, "_SKIP_"@),
        ("lib32-gcc-libs"@, "_SKIP_"@),
        ("glibc"@, "_SKIP_"@),
        ("lib32-glibc"@, "_SKIP_"@),
        ("python"@, "python3"@),
        ("python2"@, "_SKIP_"@),
        ("jdk-openjdk"@, "openjdk"@),
        ("jre-openjdk"@, "openjdk-jre"@),
        ("jdk11-openjdk"@, "openjdk11"@),
        ("jre11-openjdk"@, "openjdk11-jre"@),
        ("jdk17-openjdk"@, "openjdk17"@),
        ("jre17-openjdk"@, "openjdk17-jre"@),
        ("jdk21-openjdk"@, "openjdk21"@),
        ("jre21-openjdk"@, "openjdk21-jre"@),
        ("qt5-base"@, "qt5"@),
        ("qt6-base"@, "qt6"@),
        ("ffmpeg"@, "ffmpeg"@),
        ("gst-plugins-base"@, "gstreamer-plugins-base"@),
        ("gst-plugins-good"@, "gstreamer-plugins-good"@),
        ("gst-plugins-bad"@, "gstreamer-plugins-bad"@),
        ("gst-plugins-ugly"@, "gstreamer-plugins-ugly"@),
    ]
}

/// The names that are never converted: kernels, the toolchain, and
/// distribution-specific tooling.
pub open spec fn skip_list_spec() -> Seq<Seq<char>> {
    seq![
        "linux"@,
        "linux-headers"@,
        "linux-lts"@,
        "linux-lts-headers"@,
        "linux-zen"@,
        "linux-zen-headers"@,
        "linux-hardened"@,
        "linux-hardened-headers"@,
        "gcc"@,
        "gcc-libs"@,
        "glibc"@,
        "archlinux-keyring"@,
        "archlinux-mirrorlist"@,
        "archinstall"@,
        "pacman"@,
        "pacman-mirrorlist"@,
        "mkinitcpio"@,
        "mkinitcpio-busybox"@,
        "dracut"@,
    ]
}

fn pair(a: &str, b: &str) -> (r: (String, String))
    ensures
        r.0@ == a@,
        r.1@ == b@,
{
    (String::from_str(a), String::from_str(b))
}

/// The Arch-to-Rookery name translation table.
pub fn package_name_map() -> (r: Vec<(String, String)>)
    ensures
        r.deep_view() == name_map_spec(),
{
    let mut m: Vec<(String, String)> = Vec::new();
    m.push(pair("linux", "_SKIP_"));
    m.push(pair("linux-headers", "_SKIP_"));
    m.push(pair("linux-lts", "_SKIP_"));
    m.push(pair("linux-lts-headers", "_SKIP_"));
    m.push(pair("linux-zen", "_SKIP_"));
    m.push(pair("linux-hardened", "_SKIP_"));
    m.push(pair("gcc", "_SKIP_"));
    m.push(pair("gcc-libs", "_SKIP_"));
    m.push(pair("gcc-fortran", "_SKIP_"));
    m.push(pair("gcc-ada", "_SKIP_"));
    m.push(pair("lib32-gcc-libs", "_SKIP_"));
    m.push(pair("glibc", "_SKIP_"));
    m.push(pair("lib32-glibc", "_SKIP_"));
    m.push(pair("python", "python3"));
    m.push(pair("python2", "_SKIP_"));
    m.push(pair("jdk-openjdk", "openjdk"));
    m.push(pair("jre-openjdk", "openjdk-jre"));
    m.push(pair("jdk11-openjdk", "openjdk11"));
    m.push(pair("jre11-openjdk", "openjdk11-jre"));
    m.push(pair("jdk17-openjdk", "openjdk17"));
    m.push(pair("jre17-openjdk", "openjdk17-jre"));
    m.push(pair("jdk21-openjdk", "openjdk21"));
    m.push(pair("jre21-openjdk", "openjdk21-jre"));
    m.push(pair("qt5-base", "qt5"));
    m.push(pair("qt6-base", "qt6"));
    m.push(pair("ffmpeg", "ffmpeg"));
    m.push(pair("gst-plugins-base", "gstreamer-plugins-base"));
    m.push(pair("gst-plugins-good", "gstreamer-plugins-good"));
    m.push(pair("gst-plugins-bad", "gstreamer-plugins-bad"));
    m.push(pair("gst-plugins-ugly", "gstreamer-plugins-ugly"));
    proof {
        assert(m.deep_view() =~~= name_map_spec());
    }
    m
}

/// The skip list.
pub fn skip_packages() -> (r: Vec<String>)
    ensures
        r.deep_view() == skip_list_spec(),
{
    let mut v: Vec<String> = Vec::new();
    v.push(String::from_str("linux"));
    v.push(String::from_str("linux-headers"));
    v.push(String::from_str("linux-lts"));
    v.push(String::from_str("linux-lts-headers"));
    v.push(String::from_str("linux-zen"));
    v.push(String::from_str("linux-zen-headers"));
    v.push(String::from_str("linux-hardened"));
    v.push(String::from_str("linux-hardened-headers"));
    v.push(String::from_str("gcc"));
    v.push(String::from_str("gcc-libs"));
    v.push(String::from_str("glibc"));
    v.push(String::from_str("archlinux-keyring"));
    v.push(String::from_str("archlinux-mirrorlist"));
    v.push(String::from_str("archinstall"));
    v.push(String::from_str("pacman"));
    v.push(String::from_str("pacman-mirrorlist"));
    v.push(String::from_str("mkinitcpio"));
    v.push(String::from_str("mkinitcpio-busybox"));
    v.push(String::from_str("dracut"));
    proof {
        assert(v.deep_view() =~~= skip_list_spec());
    }
    v
}

/// A dependency string split into its name and its optional version
/// constraint; the operators, tried in this order, are `>=`, `<=`, `>`,
/// `<` and `=`.
pub open spec fn parse_dependency_spec(dep: Seq<char>) -> (Seq<char>, Option<Seq<char>>) {
    match find_in(dep, seq!['>', '=']) {
        Some(p) => (trim_spec(dep.subrange(0, p)), Some(trim_spec(dep.subrange(p, dep.len() as int)))),
        None => match find_in(dep, seq!['<', '=']) {
            Some(p) => (
                trim_spec(dep.subrange(0, p)),
                Some(trim_spec(dep.subrange(p, dep.len() as int))),
            ),
            None => match find_in(dep, seq!['>']) {
                Some(p) => (
                    trim_spec(dep.subrange(0, p)),
                    Some(trim_spec(dep.subrange(p, dep.len() as int))),
                ),
                None => match find_in(dep, seq!['<']) {
                    Some(p) => (
                        trim_spec(dep.subrange(0, p)),
                        Some(trim_spec(dep.subrange(p, dep.len() as int))),
                    ),
                    None => match find_in(dep, seq!['=']) {
                        Some(p) => (
                            trim_spec(dep.subrange(0, p)),
                            Some(trim_spec(dep.subrange(p, dep.len() as int))),
                        ),
                        None => (trim_spec(dep), None),
                    },
                },
            },
        },
    }
}

fn split_at_op(dc: &[char], p: usize) -> (r: (String, Option<String>))
    requires
        p <= dc@.len(),
    ensures
        r.0@ == trim_spec(dc@.subrange(0, p as int)),
        r.1 matches Some(v) && v@ == trim_spec(dc@.subrange(p as int, dc@.len() as int)),
{
    let n: usize = dc.len();
    let name = trim_chars(&dc[0..p]);
    let ver = trim_chars(&dc[p..n]);
    (chars_to_string(name.as_slice()), Some(chars_to_string(ver.as_slice())))
}

/// Splits a dependency such as `glibc>=2.38` into its name and constraint.
pub fn parse_dependency(dep: &str) -> (r: (String, Option<String>))
    ensures
        ({
            let s = parse_dependency_spec(dep@);
            r.0@ == s.0 && (match (r.1, s.1) {
                (Some(a), Some(b)) => a@ == b,
                (None, None) => true,
                _ => false,
            })
        }),
{
    let dc = str_to_chars(dep);
    let mut ge: Vec<char> = Vec::new();
    ge.push('>');
    ge.push('=');
    let mut le: Vec<char> = Vec::new();
    le.push('<');
    le.push('=');
    let mut gt: Vec<char> = Vec::new();
    gt.push('>');
    let mut lt: Vec<char> = Vec::new();
    lt.push('<');
    let mut eq: Vec<char> = Vec::new();
    eq.push('=');
    proof {
        assert(ge@ =~= seq!['>', '=']);
        assert(le@ =~= seq!['<', '=']);
        assert(gt@ =~= seq!['>']);
        assert(lt@ =~= seq!['<']);
        assert(eq@ =~= seq!['=']);
    }
    if let Some(p) = find_sub(dc.as_slice(), ge.as_slice()) {
        proof {
            crate::text::lemma_find_from_some(dc@, seq!['>', '='], 0, p as int);
        }
        return split_at_op(dc.as_slice(), p);
    }
    if let Some(p) = find_sub(dc.as_slice(), le.as_slice()) {
        proof {
            crate::text::lemma_find_from_some(dc@, seq!['<', '='], 0, p as int);
        }
        return split_at_op(dc.as_slice(), p);
    }
    if let Some(p) = find_sub(dc.as_slice(), gt.as_slice()) {
        proof {
            crate::text::lemma_find_from_some(dc@, seq!['>'], 0, p as int);
        }
        return split_at_op(dc.as_slice(), p);
    }
    if let Some(p) = find_sub(dc.as_slice(), lt.as_slice()) {
        proof {
            crate::text::lemma_find_from_some(dc@, seq!['<'], 0, p as int);
        }
        return split_at_op(dc.as_slice(), p);
    }
    if let Some(p) = find_sub(dc.as_slice(), eq.as_slice()) {
        proof {
            crate::text::lemma_find_from_some(dc@, seq!['='], 0, p as int);
        }
        return split_at_op(dc.as_slice(), p);
    }
    let t = trim_chars(dc.as_slice());
    (chars_to_string(t.as_slice()), None)
}

/// Whether `name` is not converted: it is on the skip list, carries the
/// `lib32-` prefix, or maps to the skip sentinel.
pub open spec fn should_skip_spec(name: Seq<char>) -> bool {
    skip_list_spec().contains(name) || starts_with_spec(name, "lib32-"@) || map_lookup(
        name_map_spec(),
        name,
    ) == Some("_SKIP_"@)
}

/// The Rookery name of an Arch package: the mapped name, or the input
/// unchanged.
pub open spec fn map_name_spec(name: Seq<char>) -> Seq<char> {
    match map_lookup(name_map_spec(), name) {
        Some(t) => if t != "_SKIP_"@ {
            t
        } else {
            name
        },
        None => name,
    }
}

/// A dependency translated for Rookery: dropped when skipped, else the
/// mapped name with the constraint carried over after a space.
pub open spec fn map_dep_spec(dep: Seq<char>) -> Option<Seq<char>> {
    let s = parse_dependency_spec(dep);
    if should_skip_spec(s.0) {
        None
    } else {
        match s.1 {
            Some(c) => Some(map_name_spec(s.0) + seq![' '] + c),
            None => Some(map_name_spec(s.0)),
        }
    }
}

/// Converts Arch recipes: holds the name table and the skip list.
pub struct ArchConverter {
    name_map: VarMap,
    skip_list: Vec<String>,
}

impl ArchConverter {
    /// The converter's tables hold exactly the static mapping.
    pub closed spec fn wf(&self) -> bool {
        self.name_map@ == name_map_spec() && self.skip_list.deep_view() == skip_list_spec()
    }

    /// Builds a converter with the static tables.
    pub fn new() -> (r: Result<ArchConverter, RookError>)
        ensures
            r is Ok,
            r matches Ok(c) ==> c.wf(),
    {
        let c = ArchConverter { name_map: VarMap { entries: package_name_map() }, skip_list: skip_packages() };
        Ok(c)
    }

    /// Whether a package is not converted.
    pub fn should_skip(&self, pkg_name: &str) -> (r: bool)
        requires
            self.wf(),
        ensures
            r == should_skip_spec(pkg_name@),
    {
        let nc = str_to_chars(pkg_name);
        let n: usize = self.skip_list.len();
        let mut i: usize = 0;
        while i < n
            invariant
                self.wf(),
                n == self.skip_list@.len(),
                i <= n,
                nc@ == pkg_name@,
                forall|k: int| 0 <= k < i ==> self.skip_list.deep_view()[k] != pkg_name@,
            decreases n - i,
        {
            let ec = str_to_chars(self.skip_list[i].as_str());
            if chars_eq(ec.as_slice(), nc.as_slice()) {
                proof {
                    assert(skip_list_spec()[i as int] == pkg_name@);
                }
                return true;
            }
            proof {
                assert(self.skip_list.deep_view()[i as int] == self.skip_list@[i as int]@);
            }
            i = i + 1;
        }
        proof {
            assert(!skip_list_spec().contains(pkg_name@));
        }
        let pre = str_to_chars("lib32-");
        if starts_with_chars(nc.as_slice(), pre.as_slice()) {
            return true;
        }
        match self.name_map.get(nc.as_slice()) {
            Some(t) => {
                let sc = str_to_chars("_SKIP_");
                let tc = str_to_chars(t.as_str());
                chars_eq(tc.as_slice(), sc.as_slice())
            },
            None => false,
        }
    }

    /// Maps an Arch package name to its Rookery name.
    pub fn map_package_name(&self, arch_name: &str) -> (r: String)
        requires
            self.wf(),
        ensures
            r@ == map_name_spec(arch_name@),
    {
        let nc = str_to_chars(arch_name);
        match self.name_map.get(nc.as_slice()) {
            Some(t) => {
                let sc = str_to_chars("_SKIP_");
                let tc = str_to_chars(t.as_str());
                if !chars_eq(tc.as_slice(), sc.as_slice()) {
                    t.clone()
                } else {
                    String::from_str(arch_name)
                }
            },
            None => String::from_str(arch_name),
        }
    }

    /// Translates one dependency, dropping skipped packages.
    pub fn map_dependency(&self, dep: &str) -> (r: Option<String>)
        requires
            self.wf(),
        ensures
            match r {
                Some(s) => map_dep_spec(dep@) == Some(s@),
                None => map_dep_spec(dep@) is None,
            },
    {
        let (name, constraint) = parse_dependency(dep);
        if self.should_skip(name.as_str()) {
            return None;
        }
        let mapped = self.map_package_name(name.as_str());
        match constraint {
            Some(c) => {
                let mut s = mapped;
                crate::text::push_char(&mut s, ' ');
                s.append(c.as_str());
                proof {
                    assert(s@ =~= map_name_spec(parse_dependency_spec(dep@).0) + seq![' ']
                        + parse_dependency_spec(dep@).1->0);
                }
                Some(s)
            },
            None => Some(mapped),
        }
    }
}

/// A string escaped for a TOML basic string: backslash, double quote,
/// newline, carriage return and tab get their conventional escapes.
pub open spec fn escape_toml_spec(s: Seq<char>) -> Seq<char> {
    let r1 = replace_spec(s, seq!['\\'], seq!['\\', '\\']);
    let r2 = replace_spec(r1, seq!['"'], seq!['\\', '"']);
    let r3 = replace_spec(r2, seq!['\n'], seq!['\\', 'n']);
    let r4 = replace_spec(r3, seq!['\r'], seq!['\\', 'r']);
    replace_spec(r4, seq!['\t'], seq!['\\', 't'])
}

/// Escapes a string for TOML.
pub fn escape_toml_string(s: &str) -> (r: String)
    ensures
        r@ == escape_toml_spec(s@),
{
    let sc = str_to_chars(s);
    let mut p1: Vec<char> = Vec::new();
    p1.push('\\');
    let mut v1: Vec<char> = Vec::new();
    v1.push('\\');
    v1.push('\\');
    proof {
        assert(p1@ =~= seq!['\\']);
        assert(v1@ =~= seq!['\\', '\\']);
    }
    let r1 = replace_all(sc.as_slice(), p1.as_slice(), v1.as_slice());
    let mut p2: Vec<char> = Vec::new();
    p2.push('"');
    let mut v2: Vec<char> = Vec::new();
    v2.push('\\');
    v2.push('"');
    proof {
        assert(p2@ =~= seq!['"']);
        assert(v2@ =~= seq!['\\', '"']);
    }
    let r2 = replace_all(r1.as_slice(), p2.as_slice(), v2.as_slice());
    let mut p3: Vec<char> = Vec::new();
    p3.push('\n');
    let mut v3: Vec<char> = Vec::new();
    v3.push('\\');
    v3.push('n');
    proof {
        assert(p3@ =~= seq!['\n']);
        assert(v3@ =~= seq!['\\', 'n']);
    }
    let r3 = replace_all(r2.as_slice(), p3.as_slice(), v3.as_slice());
    let mut p4: Vec<char> = Vec::new();
    p4.push('\r');
    let mut v4: Vec<char> = Vec::new();
    v4.push('\\');
    v4.push('r');
    proof {
        assert(p4@ =~= seq!['\r']);
        assert(v4@ =~= seq!['\\', 'r']);
    }
    let r4 = replace_all(r3.as_slice(), p4.as_slice(), v4.as_slice());
    let mut p5: Vec<char> = Vec::new();
    p5.push('\t');
    let mut v5: Vec<char> = Vec::new();
    v5.push('\\');
    v5.push('t');
    proof {
        assert(p5@ =~= seq!['\t']);
        assert(v5@ =~= seq!['\\', 't']);
    }
    let r5 = replace_all(r4.as_slice(), p5.as_slice(), v5.as_slice());
    chars_to_string(r5.as_slice())
}

/// One translated dependency line of a `.rook` document.
pub open spec fn dep_line_spec(dep: Seq<char>) -> Seq<char> {
    match map_dep_spec(dep) {
        Some(m) => {
            let s = parse_dependency_spec(m);
            match s.1 {
                Some(v) => s.0 + " = \""@ + v + "\"\n"@,
                None => s.0 + " = \">= 0\"\n"@,
            }
        },
        None => Seq::empty(),
    }
}

/// The translated lines of a dependency list, in order.
pub open spec fn dep_lines_spec(deps: Seq<Seq<char>>) -> Seq<char>
    decreases deps.len(),
{
    if deps.len() == 0 {
        Seq::empty()
    } else {
        dep_lines_spec(deps.drop_last()) + dep_line_spec(deps.last())
    }
}

/// One optional-dependency line: the part before the first `:` is the
/// package, the rest its description.
pub open spec fn optdep_line_spec(dep: Seq<char>) -> Seq<char> {
    let nd = match find_in(dep, seq![':']) {
        Some(p) => (trim_spec(dep.subrange(0, p)), trim_spec(dep.subrange(p + 1, dep.len() as int))),
        None => (trim_spec(dep), Seq::<char>::empty()),
    };
    match map_dep_spec(nd.0) {
        Some(m) => parse_dependency_spec(m).0 + " = [\""@ + escape_toml_spec(nd.1) + "\"]\n"@,
        None => Seq::empty(),
    }
}

/// The optional-dependency lines, in order.
pub open spec fn optdep_lines_spec(deps: Seq<Seq<char>>) -> Seq<char>
    decreases deps.len(),
{
    if deps.len() == 0 {
        Seq::empty()
    } else {
        optdep_lines_spec(deps.drop_last()) + optdep_line_spec(deps.last())
    }
}

/// The checksum emitted for source `i`: the parallel checksum, or a
/// placeholder for a missing or `SKIP` entry.
pub open spec fn source_checksum_spec(p: Pkgbuild, i: int) -> Seq<char> {
    let cs = checksums_spec(p);
    let c = if 0 <= i < cs.len() {
        cs[i]
    } else {
        Seq::<char>::empty()
    };
    if c == "SKIP"@ || c.len() == 0 {
        "_NEEDS_CHECKSUM_RUN_rookpkg_checksum_update_"@
    } else {
        c
    }
}

/// One `[sources]` line.
pub open spec fn source_line_spec(p: Pkgbuild, i: int) -> Seq<char> {
    "source"@ + u32_dec_spec(i as nat) + " = { url = \""@ + expand_spec(
        p.source.deep_view()[i],
        p.pkgname@,
        p.pkgver@,
        p.pkgrel@,
    ) + "\", sha256 = \""@ + source_checksum_spec(p, i) + "\" }\n"@
}

/// The first `n` `[sources]` lines.
pub open spec fn source_lines_spec(p: Pkgbuild, n: int) -> Seq<char>
    decreases n,
{
    if n <= 0 {
        Seq::empty()
    } else {
        source_lines_spec(p, n - 1) + source_line_spec(p, n - 1)
    }
}

/// One build phase of the `[build]` section: the expanded body inside a
/// multi-line literal, or an empty literal when the recipe has none.
pub open spec fn phase_spec(p: Pkgbuild, head: Seq<char>, body: Option<Seq<char>>) -> Seq<char> {
    match body {
        Some(b) => head + expand_spec(b, p.pkgname@, p.pkgver@, p.pkgrel@) + "\n\"\"\"\n\n"@,
        None => head + "\"\"\"\n\n"@,
    }
}

/// One `[config_files]` line.
pub open spec fn cfg_line_spec(f: Seq<char>) -> Seq<char> {
    "\""@ + f + "\" = {}\n"@
}

/// The `[config_files]` lines, in order.
pub open spec fn cfg_lines_spec(fs: Seq<Seq<char>>) -> Seq<char>
    decreases fs.len(),
{
    if fs.len() == 0 {
        Seq::empty()
    } else {
        cfg_lines_spec(fs.drop_last()) + cfg_line_spec(fs.last())
    }
}

/// The `[package]` section.
#[verifier::opaque]
pub open spec fn package_section_spec(p: Pkgbuild) -> Seq<char> {
    "[package]\n"@ + "name = \""@ + map_name_spec(p.pkgname@) + "\"\n"@ + "version = \""@
        + version_spec(p) + "\"\n"@ + "release = "@ + u32_dec_spec(release_spec(p) as nat) + "\n"@
        + "summary = \""@ + escape_toml_spec(p.pkgdesc@) + "\"\n"@ + "description = \"\"\"\n"@
        + escape_toml_spec(p.pkgdesc@) + "\n\"\"\"\n"@ + (if p.url@.len() > 0 {
        "homepage = \""@ + p.url@ + "\"\n"@
    } else {
        Seq::<char>::empty()
    }) + (if p.license@.len() > 0 {
        "license = \""@ + join_sep(p.license.deep_view(), " AND "@) + "\"\n"@
    } else {
        Seq::<char>::empty()
    }) + "maintainer = \"Converted from Arch Linux <converted@rookeryos.dev>\"\n"@
        + "arch = \"x86_64\"\n"@ + "\n"@
}

/// The `[sources]` section; an empty one is the bare header, so the file
/// shape stays uniform.
#[verifier::opaque]
pub open spec fn sources_section_spec(p: Pkgbuild) -> Seq<char> {
    if p.source@.len() > 0 {
        "[sources]\n"@ + source_lines_spec(p, p.source@.len() as int) + "\n"@
    } else {
        "[sources]\n\n"@
    }
}

/// The `[build_depends]` section.
#[verifier::opaque]
pub open spec fn build_depends_section_spec(p: Pkgbuild) -> Seq<char> {
    if p.makedepends@.len() > 0 || p.checkdepends@.len() > 0 {
        "[build_depends]\n"@ + dep_lines_spec(p.makedepends.deep_view()) + dep_lines_spec(
            p.checkdepends.deep_view(),
        ) + "\n"@
    } else {
        "[build_depends]\n\n"@
    }
}

/// The `[depends]` section.
#[verifier::opaque]
pub open spec fn depends_section_spec(p: Pkgbuild) -> Seq<char> {
    if p.depends@.len() > 0 {
        "[depends]\n"@ + dep_lines_spec(p.depends.deep_view()) + "\n"@
    } else {
        "[depends]\n\n"@
    }
}

/// The `[optional_depends]` section.
#[verifier::opaque]
pub open spec fn optdepends_section_spec(p: Pkgbuild) -> Seq<char> {
    if p.optdepends@.len() > 0 {
        "[optional_depends]\n"@ + optdep_lines_spec(p.optdepends.deep_view()) + "\n"@
    } else {
        "[optional_depends]\n\n"@
    }
}

/// The `[build]` section with its five phases.
#[verifier::opaque]
pub open spec fn build_section_spec(p: Pkgbuild) -> Seq<char> {
    "[build]\n"@ + phase_spec(p, "prep = \"\"\"\n"@, crate::pkgbuild::opt_view(p.prepare_func))
        + "configure = \"\"\"\n\"\"\"\n\n"@ + phase_spec(
        p,
        "build = \"\"\"\n"@,
        crate::pkgbuild::opt_view(p.build_func),
    ) + phase_spec(p, "check = \"\"\"\n"@, crate::pkgbuild::opt_view(p.check_func)) + phase_spec(
        p,
        "install = \"\"\"\n"@,
        crate::pkgbuild::opt_view(p.package_func),
    )
}

/// The `[config_files]` section.
#[verifier::opaque]
pub open spec fn config_section_spec(p: Pkgbuild) -> Seq<char> {
    if p.backup@.len() > 0 {
        "[config_files]\n"@ + cfg_lines_spec(p.backup.deep_view()) + "\n"@
    } else {
        "[config_files]\n\n"@
    }
}

/// The fixed trailing banner of every emitted recipe.
#[verifier::opaque]
pub open spec fn banner_spec() -> Seq<char> {
    "# =============================================================================\n"@
        + "# CONVERTED FROM ARCH LINUX PKGBUILD - REVIEW REQUIRED\n"@
        + "# =============================================================================\n"@
        + "# This file was automatically converted and may need manual adjustments:\n"@
        + "# - Verify source URLs and checksums\n"@
        + "# - Check dependency names are correct for Rookery\n"@
        + "# - Review build instructions for Rookery-specific paths\n"@
        + "# - Add [files] entries to specify what gets packaged\n"@
        + "# =============================================================================\n"@
}

/// The whole emitted `.rook` document for a parsed recipe.
pub open spec fn rook_spec(p: Pkgbuild) -> Seq<char> {
    package_section_spec(p) + sources_section_spec(p) + "[patches]\n\n"@
        + build_depends_section_spec(p) + depends_section_spec(p) + optdepends_section_spec(p)
        + "[environment]\n\n"@ + build_section_spec(p) + "[files]\n\n"@ + config_section_spec(p)
        + "[scripts]\n\n"@ + banner_spec()
}

fn append_phase(s: &mut String, pkg: &Pkgbuild, head: &str, body: &Option<String>)
    ensures
        final(s)@ == old(s)@ + phase_spec(*pkg, head@, crate::pkgbuild::opt_view(*body)),
{
    let ghost pre = s@;
    s.append(head);
    match body {
        Some(b) => {
            let e = pkg.expand_variables(b.as_str());
            s.append(e.as_str());
            s.append("\n\"\"\"\n\n");
            proof {
                assert(s@ =~= pre + phase_spec(*pkg, head@, crate::pkgbuild::opt_view(*body)));
            }
        },
        None => {
            s.append("\"\"\"\n\n");
            proof {
                assert(s@ =~= pre + phase_spec(*pkg, head@, crate::pkgbuild::opt_view(*body)));
            }
        },
    }
}

impl ArchConverter {
    fn append_dep_lines(&self, s: &mut String, deps: &Vec<String>)
        requires
            self.wf(),
        ensures
            final(s)@ == old(s)@ + dep_lines_spec(deps.deep_view()),
    {
        let ghost base = s@;
        let n: usize = deps.len();
        let mut i: usize = 0;
        proof {
            assert(base + dep_lines_spec(deps.deep_view().take(0)) =~= base);
        }
        while i < n
            invariant
                self.wf(),
                n == deps@.len(),
                i <= n,
                s@ == base + dep_lines_spec(deps.deep_view().take(i as int)),
            decreases n - i,
        {
            let ghost pre = s@;
            match self.map_dependency(deps[i].as_str()) {
                Some(mapped) => {
                    let (name, ver) = parse_dependency(mapped.as_str());
                    s.append(name.as_str());
                    match ver {
                        Some(v) => {
                            s.append(" = \"");
                            s.append(v.as_str());
                            s.append("\"\n");
                        },
                        None => {
                            s.append(" = \">= 0\"\n");
                        },
                    }
                },
                None => {},
            }
            proof {
                assert(deps@[i as int]@ == deps.deep_view()[i as int]);
                assert(s@ =~= pre + dep_line_spec(deps.deep_view()[i as int]));
            }
            i = i + 1;
            proof {
                let dv = deps.deep_view();
                assert(dv.take(i as int).drop_last() =~= dv.take(i - 1));
                assert(dv.take(i as int).last() == dv[i - 1]);
                assert(s@ =~= base + dep_lines_spec(dv.take(i as int)));
            }
        }
        proof {
            assert(deps.deep_view().take(n as int) =~= deps.deep_view());
        }
    }

    fn append_optdep_lines(&self, s: &mut String, deps: &Vec<String>)
        requires
            self.wf(),
        ensures
            final(s)@ == old(s)@ + optdep_lines_spec(deps.deep_view()),
    {
        let ghost base = s@;
        let n: usize = deps.len();
        let mut i: usize = 0;
        proof {
            assert(base + optdep_lines_spec(deps.deep_view().take(0)) =~= base);
        }
        while i < n
            invariant
                self.wf(),
                n == deps@.len(),
                i <= n,
                s@ == base + optdep_lines_spec(deps.deep_view().take(i as int)),
            decreases n - i,
        {
            let ghost pre = s@;
            let ghost dep = deps.deep_view()[i as int];
            let dc = str_to_chars(deps[i].as_str());
            let dn: usize = dc.len();
            let mut colon: Vec<char> = Vec::new();
            colon.push(':');
            proof {
                assert(colon@ =~= seq![':']);
                assert(deps@[i as int]@ == dep);
            }
            let name_part: Vec<char>;
            let desc_part: Vec<char>;
            match find_sub(dc.as_slice(), colon.as_slice()) {
                Some(q) => {
                    proof {
                        crate::text::lemma_find_from_some(dc@, seq![':'], 0, q as int);
                    }
                    name_part = trim_chars(&dc.as_slice()[0..q]);
                    desc_part = trim_chars(&dc.as_slice()[q + 1..dn]);
                },
                None => {
                    name_part = trim_chars(dc.as_slice());
                    desc_part = Vec::new();
                    proof {
                        assert(desc_part@ =~= Seq::<char>::empty());
                        assert(trim_spec(Seq::<char>::empty()) =~= Seq::<char>::empty());
                    }
                },
            }
            let name_str = chars_to_string(name_part.as_slice());
            match self.map_dependency(name_str.as_str()) {
                Some(mapped) => {
                    let (mname, _mver) = parse_dependency(mapped.as_str());
                    s.append(mname.as_str());
                    s.append(" = [\"");
                    let desc_str = chars_to_string(desc_part.as_slice());
                    let esc = escape_toml_string(desc_str.as_str());
                    s.append(esc.as_str());
                    s.append("\"]\n");
                },
                None => {},
            }
            proof {
                assert(s@ =~= pre + optdep_line_spec(dep));
            }
            i = i + 1;
            proof {
                let dv = deps.deep_view();
                assert(dv.take(i as int).drop_last() =~= dv.take(i - 1));
                assert(dv.take(i as int).last() == dv[i - 1]);
                assert(s@ =~= base + optdep_lines_spec(dv.take(i as int)));
            }
        }
        proof {
            assert(deps.deep_view().take(n as int) =~= deps.deep_view());
        }
    }
}

fn emit_sources_section(s: &mut String, pkg: &Pkgbuild)
    ensures
        final(s)@ == old(s)@ + sources_section_spec(*pkg),
{
    let ghost c1 = s@;
    if pkg.source.len() > 0 {
        s.append("[sources]\n");
        append_sources(s, pkg);
        s.append("\n");
    } else {
        s.append("[sources]\n\n");
    }
    proof {
        reveal(sources_section_spec);
        assert(s@ =~= c1 + sources_section_spec(*pkg));
    }
}

fn append_sources(s: &mut String, pkg: &Pkgbuild)
    ensures
        final(s)@ == old(s)@ + source_lines_spec(*pkg, pkg.source@.len() as int),
{
    let ghost base = s@;
    let cs = pkg.checksums();
    let skip_pat = str_to_chars("SKIP");
    let n: usize = pkg.source.len();
    let ncs: usize = cs.len();
    let mut i: usize = 0;
    while i < n
        invariant
            n == pkg.source@.len(),
            ncs == cs@.len(),
            cs.deep_view() == checksums_spec(*pkg),
            skip_pat@ == "SKIP"@,
            i <= n,
            s@ == base + source_lines_spec(*pkg, i as int),
        decreases n - i,
    {
        let ghost pre = s@;
        let url = pkg.expand_variables(pkg.source[i].as_str());
        let checksum: String = if i < ncs {
            cs[i].clone()
        } else {
            String::new()
        };
        let cc = str_to_chars(checksum.as_str());
        let chosen: String = if chars_eq(cc.as_slice(), skip_pat.as_slice()) || cc.len() == 0 {
            String::from_str("_NEEDS_CHECKSUM_RUN_rookpkg_checksum_update_")
        } else {
            checksum
        };
        s.append("source");
        let idx = format_usize(i);
        let idx_str = chars_to_string(idx.as_slice());
        s.append(idx_str.as_str());
        s.append(" = { url = \"");
        s.append(url.as_str());
        s.append("\", sha256 = \"");
        s.append(chosen.as_str());
        s.append("\" }\n");
        proof {
            assert(pkg.source@[i as int]@ == pkg.source.deep_view()[i as int]);
            if i < ncs {
                assert(cs@[i as int]@ == checksums_spec(*pkg)[i as int]);
            }
            assert(chosen@ == source_checksum_spec(*pkg, i as int));
            assert(s@ =~= pre + source_line_spec(*pkg, i as int));
        }
        i = i + 1;
    }
}

fn append_cfg_lines(s: &mut String, files: &Vec<String>)
    ensures
        final(s)@ == old(s)@ + cfg_lines_spec(files.deep_view()),
{
    let ghost base = s@;
    let n: usize = files.len();
    let mut i: usize = 0;
    proof {
        assert(base + cfg_lines_spec(files.deep_view().take(0)) =~= base);
    }
    while i < n
        invariant
            n == files@.len(),
            i <= n,
            s@ == base + cfg_lines_spec(files.deep_view().take(i as int)),
        decreases n - i,
    {
        let ghost pre = s@;
        s.append("\"");
        s.append(files[i].as_str());
        s.append("\" = {}\n");
        proof {
            assert(files@[i as int]@ == files.deep_view()[i as int]);
            assert(s@ =~= pre + cfg_line_spec(files.deep_view()[i as int]));
        }
        i = i + 1;
        proof {
            let dv = files.deep_view();
            assert(dv.take(i as int).drop_last() =~= dv.take(i - 1));
            assert(dv.take(i as int).last() == dv[i - 1]);
            assert(s@ =~= base + cfg_lines_spec(dv.take(i as int)));
        }
    }
    proof {
        assert(files.deep_view().take(n as int) =~= files.deep_view());
    }
}

impl ArchConverter {
    fn emit_package_section(&self, pkg: &Pkgbuild) -> (r: String)
        requires
            self.wf(),
        ensures
            r@ == package_section_spec(*pkg),
    {
        let mut s = String::new();
        s.append("[package]\n");
        s.append("name = \"");
        let mapped = self.map_package_name(pkg.pkgname.as_str());
        s.append(mapped.as_str());
        s.append("\"\n");
        s.append("version = \"");
        let ver = pkg.version();
        s.append(ver.as_str());
        s.append("\"\n");
        s.append("release = ");
        let rel = crate::text::format_u32(pkg.release());
        let rel_str = chars_to_string(rel.as_slice());
        s.append(rel_str.as_str());
        s.append("\n");
        s.append("summary = \"");
        let esc_desc = escape_toml_string(pkg.pkgdesc.as_str());
        s.append(esc_desc.as_str());
        s.append("\"\n");
        s.append("description = \"\"\"\n");
        s.append(esc_desc.as_str());
        s.append("\n\"\"\"\n");
        if pkg.url.as_str().unicode_len() > 0 {
            s.append("homepage = \"");
            s.append(pkg.url.as_str());
            s.append("\"\n");
        }
        if pkg.license.len() > 0 {
            s.append("license = \"");
            let joined = join_with(&pkg.license, " AND ");
            let joined_str = chars_to_string(joined.as_slice());
            s.append(joined_str.as_str());
            s.append("\"\n");
        }
        s.append("maintainer = \"Converted from Arch Linux <converted@rookeryos.dev>\"\n");
        s.append("arch = \"x86_64\"\n");
        s.append("\n");
        proof {
            reveal(package_section_spec);
            assert(s@ =~= package_section_spec(*pkg));
        }
        s
    }

    fn emit_build_depends_section(&self, pkg: &Pkgbuild) -> (r: String)
        requires
            self.wf(),
        ensures
            r@ == build_depends_section_spec(*pkg),
    {
        let mut s = String::new();
        if pkg.makedepends.len() > 0 || pkg.checkdepends.len() > 0 {
            s.append("[build_depends]\n");
            self.append_dep_lines(&mut s, &pkg.makedepends);
            self.append_dep_lines(&mut s, &pkg.checkdepends);
            s.append("\n");
        } else {
            s.append("[build_depends]\n\n");
        }
        proof {
            reveal(build_depends_section_spec);
            assert(s@ =~= build_depends_section_spec(*pkg));
        }
        s
    }

    fn emit_depends_section(&self, pkg: &Pkgbuild) -> (r: String)
        requires
            self.wf(),
        ensures
            r@ == depends_section_spec(*pkg),
    {
        let mut s = String::new();
        if pkg.depends.len() > 0 {
            s.append("[depends]\n");
            self.append_dep_lines(&mut s, &pkg.depends);
            s.append("\n");
        } else {
            s.append("[depends]\n\n");
        }
        proof {
            reveal(depends_section_spec);
            assert(s@ =~= depends_section_spec(*pkg));
        }
        s
    }

    fn emit_optdepends_section(&self, pkg: &Pkgbuild) -> (r: String)
        requires
            self.wf(),
        ensures
            r@ == optdepends_section_spec(*pkg),
    {
        let mut s = String::new();
        if pkg.optdepends.len() > 0 {
            s.append("[optional_depends]\n");
            self.append_optdep_lines(&mut s, &pkg.optdepends);
            s.append("\n");
        } else {
            s.append("[optional_depends]\n\n");
        }
        proof {
            reveal(optdepends_section_spec);
            assert(s@ =~= optdepends_section_spec(*pkg));
        }
        s
    }

    /// Renders a parsed recipe as a `.rook` TOML document.
    pub fn pkgbuild_to_rook(&self, pkg: &Pkgbuild) -> (r: Result<String, RookError>)
        requires
            self.wf(),
        ensures
            r is Ok,
            r matches Ok(s) ==> s@ == rook_spec(*pkg),
    {
        let mut s = self.emit_package_section(pkg);
        emit_sources_section(&mut s, pkg);
        let ghost c2 = s@;
        s.append("[patches]\n\n");
        let bd = self.emit_build_depends_section(pkg);
        s.append(bd.as_str());
        let dp = self.emit_depends_section(pkg);
        s.append(dp.as_str());
        let od = self.emit_optdepends_section(pkg);
        s.append(od.as_str());
        let ghost c5 = s@;
        s.append("[environment]\n\n");
        s.append("[build]\n");
        append_phase(&mut s, pkg, "prep = \"\"\"\n", &pkg.prepare_func);
        s.append("configure = \"\"\"\n\"\"\"\n\n");
        append_phase(&mut s, pkg, "build = \"\"\"\n", &pkg.build_func);
        append_phase(&mut s, pkg, "check = \"\"\"\n", &pkg.check_func);
        append_phase(&mut s, pkg, "install = \"\"\"\n", &pkg.package_func);
        proof {
            reveal(build_section_spec);
            assert(s@ =~= c5 + "[environment]\n\n"@ + build_section_spec(*pkg));
        }
        let ghost c6 = s@;
        s.append("[files]\n\n");
        if pkg.backup.len() > 0 {
            s.append("[config_files]\n");
            append_cfg_lines(&mut s, &pkg.backup);
            s.append("\n");
        } else {
            s.append("[config_files]\n\n");
        }
        proof {
            reveal(config_section_spec);
            assert(s@ =~= c6 + "[files]\n\n"@ + config_section_spec(*pkg));
        }
        let ghost c7 = s@;
        s.append("[scripts]\n\n");
        s.append("# =============================================================================\n");
        s.append("# CONVERTED FROM ARCH LINUX PKGBUILD - REVIEW REQUIRED\n");
        s.append("# =============================================================================\n");
        s.append("# This file was automatically converted and may need manual adjustments:\n");
        s.append("# - Verify source URLs and checksums\n");
        s.append("# - Check dependency names are correct for Rookery\n");
        s.append("# - Review build instructions for Rookery-specific paths\n");
        s.append("# - Add [files] entries to specify what gets packaged\n");
        s.append("# =============================================================================\n");
        proof {
            reveal(banner_spec);
            assert(s@ =~= c7 + "[scripts]\n\n"@ + banner_spec());
            assert(s@ =~= rook_spec(*pkg));
        }
        Ok(s)
    }

    /// Converts a fetched PKGBUILD text into a `.rook` document, refusing
    /// packages on the skip list and texts that do not parse.
    pub fn convert(&self, pkg_name: &str, content: &str) -> (r: Result<String, RookError>)
        requires
            self.wf(),
        ensures
            should_skip_spec(pkg_name@) ==> r == Err::<String, RookError>(RookError::SkipList),
            !should_skip_spec(pkg_name@) ==> (r is Ok <==> crate::pkgbuild::parse_accepts(
                content@,
            )),
            !should_skip_spec(pkg_name@) && !crate::pkgbuild::parse_accepts(content@) ==> r
                == Err::<String, RookError>(RookError::Parse),
            r matches Ok(s) ==> exists|p: Pkgbuild| parse_ok(p, content@) && s@ == rook_spec(p),
    {
        if self.should_skip(pkg_name) {
            return Err(RookError::SkipList);
        }
        let pkg = match Pkgbuild::parse(content) {
            Ok(p) => p,
            Err(e) => {
                return Err(e);
            },
        };
        match self.pkgbuild_to_rook(&pkg) {
            Ok(s) => {
                proof {
                    assert(parse_ok(pkg, content@) && s@ == rook_spec(pkg));
                }
                Ok(s)
            },
            Err(e) => Err(e),
        }
    }
}

impl Default for ArchConverter {
    /// A converter with the static tables.
    fn default() -> (r: ArchConverter)
        ensures
            r.wf(),
    {
        match ArchConverter::new() {
            Ok(c) => c,
            Err(_) => vstd::pervasive::unreached(),
        }
    }
}

/// Statistics of a bulk conversion run.
#[derive(Debug)]
pub struct ConversionStats {
    /// How many packages the listing held.
    pub total: usize,
    /// How many were converted and written.
    pub converted: usize,
    /// How many were skipped.
    pub skipped: usize,
    /// How many failed.
    pub failed: usize,
    /// The names of the packages that failed.
    pub failed_packages: Vec<String>,
}

impl ConversionStats {
    /// Fresh counters for a listing of `total` packages.
    pub fn new(total: usize) -> (r: ConversionStats)
        ensures
            r.total == total,
            r.converted == 0,
            r.skipped == 0,
            r.failed == 0,
            r.failed_packages@.len() == 0,
    {
        ConversionStats { total, converted: 0, skipped: 0, failed: 0, failed_packages: Vec::new() }
    }

    /// Counts one converted package.
    pub fn record_converted(&mut self)
        requires
            old(self).converted < usize::MAX,
        ensures
            final(self).converted == old(self).converted + 1,
            final(self).total == old(self).total,
            final(self).skipped == old(self).skipped,
            final(self).failed == old(self).failed,
            final(self).failed_packages@ == old(self).failed_packages@,
    {
        self.converted = self.converted + 1;
    }

    /// Counts one skipped package.
    pub fn record_skipped(&mut self)
        requires
            old(self).skipped < usize::MAX,
        ensures
            final(self).skipped == old(self).skipped + 1,
            final(self).total == old(self).total,
            final(self).converted == old(self).converted,
            final(self).failed == old(self).failed,
            final(self).failed_packages@ == old(self).failed_packages@,
    {
        self.skipped = self.skipped + 1;
    }

    /// Counts one failed package and remembers its name.
    pub fn record_failed(&mut self, name: String)
        requires
            old(self).failed < usize::MAX,
        ensures
            final(self).failed == old(self).failed + 1,
            final(self).failed_packages@ == old(self).failed_packages@.push(name),
            final(self).total == old(self).total,
            final(self).converted == old(self).converted,
            final(self).skipped == old(self).skipped,
    {
        self.failed = self.failed + 1;
        self.failed_packages.push(name);
    }
}

/// One package row of the upstream search listing.
#[derive(Debug)]
pub struct ArchPackageInfo {
    /// Package name.
    pub pkgname: String,
    /// Package version.
    pub pkgver: String,
    /// Package release.
    pub pkgrel: String,
    /// One-line description.
    pub pkgdesc: String,
    /// The repository the package sits in.
    pub repo: String,
    /// The architecture.
    pub arch: String,
}

/// The page size of the upstream search endpoint.
pub const PAGE_SIZE: usize = 250;

/// Whether pagination goes on after a page: only when the page came back
/// well and was full.
pub fn next_page_wanted(status_ok: bool, n_results: usize) -> (r: bool)
    ensures
        r == (status_ok && n_results >= PAGE_SIZE),
{
    status_ok && n_results >= PAGE_SIZE
}

/// The escaped form of a string holds no raw newline, carriage return or
/// tab: each was rewritten to its escape, and no replacement reintroduces
/// one.  A TOML basic string must be free of them.
pub proof fn lemma_escape_no_raw_controls(s: Seq<char>)
    ensures
        !escape_toml_spec(s).contains('\n'),
        !escape_toml_spec(s).contains('\r'),
        !escape_toml_spec(s).contains('\t'),
{
    let r1 = replace_spec(s, seq!['\\'], seq!['\\', '\\']);
    let r2 = replace_spec(r1, seq!['"'], seq!['\\', '"']);
    let r3 = replace_spec(r2, seq!['\n'], seq!['\\', 'n']);
    let r4 = replace_spec(r3, seq!['\r'], seq!['\\', 'r']);
    crate::text::lemma_replace_removes(r2, '\n', seq!['\\', 'n']);
    crate::text::lemma_replace_keeps_absent(r3, seq!['\r'], seq!['\\', 'r'], '\n');
    crate::text::lemma_replace_keeps_absent(r4, seq!['\t'], seq!['\\', 't'], '\n');
    crate::text::lemma_replace_removes(r3, '\r', seq!['\\', 'r']);
    crate::text::lemma_replace_keeps_absent(r4, seq!['\t'], seq!['\\', 't'], '\r');
    crate::text::lemma_replace_removes(r4, '\t', seq!['\\', 't']);
}

proof fn lemma_occurrence_at(s: Seq<char>, name: Seq<char>, rest: Seq<char>, pat: Seq<char>)
    requires
        s == name + rest,
        pat.len() >= 1,
        !name.contains(pat[0]),
        pat.len() <= rest.len(),
        rest.subrange(0, pat.len() as int) == pat,
    ensures
        find_in(s, pat) == Some(name.len() as int),
{
    let j = name.len() as int;
    assert(s.subrange(j, j + pat.len()) =~= rest.subrange(0, pat.len() as int));
    assert forall|k: int| 0 <= k < j implies #[trigger] s.subrange(k, k + pat.len()) != pat by {
        if s.subrange(k, k + pat.len()) == pat {
            assert(s.subrange(k, k + pat.len())[0] == s[k]);
            assert(s[k] == name[k]);
            assert(name.contains(pat[0]));
        }
    }
    crate::text::lemma_find_in_is(s, pat, j);
}

proof fn lemma_no_char_in_concat3(name: Seq<char>, op: Seq<char>, ver: Seq<char>, c: char)
    requires
        !name.contains(c),
        !op.contains(c),
        !ver.contains(c),
    ensures
        !(name + op + ver).contains(c),
{
    crate::text::lemma_concat_no_char(name, op, c);
    crate::text::lemma_concat_no_char(name + op, ver, c);
}

proof fn lemma_single_op_position(
    name: Seq<char>,
    op: Seq<char>,
    ver: Seq<char>,
    c: char,
    follow: char,
)
    requires
        op.len() == 1,
        op[0] == c,
        !name.contains(c),
        !ver.contains(c),
        !ver.contains(follow),
    ensures
        find_in(name + op + ver, seq![c, follow]) is None,
{
    let s = name + op + ver;
    let nl = name.len() as int;
    assert forall|k: int|
        0 <= k < s.len() && #[trigger] s[k] == c implies (k + 1 >= s.len() || s[k + 1]
        != follow) by {
        if k < nl {
            assert(s[k] == name[k]);
            assert(name.contains(c));
        } else if k > nl {
            assert(s[k] == ver[k - nl - 1]);
            assert(ver.contains(c));
        } else {
            if k + 1 < s.len() {
                assert(s[k + 1] == ver[0]);
                if s[k + 1] == follow {
                    assert(ver.contains(follow));
                }
            }
        }
    }
    crate::text::lemma_find2_none(s, c, follow);
}

/// The dependency codec round-trips: a dependency written as a name, one
/// of the five operators and a version parses back to exactly the name
/// and the full constraint, and a bare name parses with no constraint.
pub proof fn lemma_dependency_round_trip(name: Seq<char>, op: Seq<char>, ver: Seq<char>)
    requires
        op == seq!['>', '='] || op == seq!['<', '='] || op == seq!['>'] || op == seq!['<'] || op
            == seq!['='],
        !name.contains('>') && !name.contains('<') && !name.contains('='),
        !ver.contains('>') && !ver.contains('<') && !ver.contains('='),
        trim_spec(name) == name,
        trim_spec(op + ver) == op + ver,
    ensures
        parse_dependency_spec(name + op + ver) == (name, Some(op + ver)),
{
    let tail = op + ver;
    let s = name + op + ver;
    let nl = name.len() as int;
    assert(s =~= name + tail);
    assert(s.subrange(0, nl) =~= name);
    assert(s.subrange(nl, s.len() as int) =~= tail);
    if op == seq!['>', '='] {
        assert(tail.subrange(0, 2) =~= op);
        lemma_occurrence_at(s, name, tail, seq!['>', '=']);
    } else if op == seq!['<', '='] {
        assert(!op.contains('>')) by {
            if op.contains('>') {
                let i = choose|i: int| 0 <= i < op.len() && op[i] == '>';
            }
        }
        lemma_no_char_in_concat3(name, op, ver, '>');
        crate::text::lemma_find_none_no_first_char(s, seq!['>', '=']);
        assert(tail.subrange(0, 2) =~= op);
        lemma_occurrence_at(s, name, tail, seq!['<', '=']);
    } else if op == seq!['>'] {
        lemma_single_op_position(name, op, ver, '>', '=');
        assert(!op.contains('<')) by {
            if op.contains('<') {
                let i = choose|i: int| 0 <= i < op.len() && op[i] == '<';
            }
        }
        lemma_no_char_in_concat3(name, op, ver, '<');
        crate::text::lemma_find_none_no_first_char(s, seq!['<', '=']);
        assert(tail.subrange(0, 1) =~= op);
        lemma_occurrence_at(s, name, tail, seq!['>']);
    } else if op == seq!['<'] {
        assert(!op.contains('>')) by {
            if op.contains('>') {
                let i = choose|i: int| 0 <= i < op.len() && op[i] == '>';
            }
        }
        lemma_no_char_in_concat3(name, op, ver, '>');
        crate::text::lemma_find_none_no_first_char(s, seq!['>', '=']);
        lemma_single_op_position(name, op, ver, '<', '=');
        crate::text::lemma_find_none_no_first_char(s, seq!['>']);
        assert(tail.subrange(0, 1) =~= op);
        lemma_occurrence_at(s, name, tail, seq!['<']);
    } else {
        assert(!op.contains('>')) by {
            if op.contains('>') {
                let i = choose|i: int| 0 <= i < op.len() && op[i] == '>';
            }
        }
        assert(!op.contains('<')) by {
            if op.contains('<') {
                let i = choose|i: int| 0 <= i < op.len() && op[i] == '<';
            }
        }
        lemma_no_char_in_concat3(name, op, ver, '>');
        lemma_no_char_in_concat3(name, op, ver, '<');
        crate::text::lemma_find_none_no_first_char(s, seq!['>', '=']);
        crate::text::lemma_find_none_no_first_char(s, seq!['<', '=']);
        crate::text::lemma_find_none_no_first_char(s, seq!['>']);
        crate::text::lemma_find_none_no_first_char(s, seq!['<']);
        assert(tail.subrange(0, 1) =~= op);
        lemma_occurrence_at(s, name, tail, seq!['=']);
    }
}

/// A bare name, with no operator character in it, parses to itself with
/// no constraint.
pub proof fn lemma_bare_dependency(name: Seq<char>)
    requires
        !name.contains('>') && !name.contains('<') && !name.contains('='),
        trim_spec(name) == name,
    ensures
        parse_dependency_spec(name) == (name, None::<Seq<char>>),
{
    crate::text::lemma_find_none_no_first_char(name, seq!['>', '=']);
    crate::text::lemma_find_none_no_first_char(name, seq!['<', '=']);
    crate::text::lemma_find_none_no_first_char(name, seq!['>']);
    crate::text::lemma_find_none_no_first_char(name, seq!['<']);
    crate::text::lemma_find_none_no_first_char(name, seq!['=']);
}

} // verus!
