//! The PKGBUILD lexer and parser.
//!
//! A PKGBUILD is a shell script of variable assignments and function
//! definitions.  The parser never runs a shell: it recognises scalar and
//! array assignments line by line, extracts function bodies by brace
//! balance, and then populates the typed fields from the raw variables.

use vstd::prelude::*;
use crate::errs::RookError;
use crate::text::{
    chars_eq, chars_to_string, contains_char, count_char, count_char_exec, ends_with_chars,
    ends_with_spec, find_in, find_sub, is_space_char, join_lines, join_nl,
    lemma_count_char_bounds, lemma_sum_lens_subrange, lemma_split_lines_sum, parse_u32,
    parse_u32_spec, split_lines, split_lines_spec, str_to_chars, sum_lens, trim_chars, trim_spec,
};

verus! {

/// An association list of string variables; a later entry for the same key
/// overrides an earlier one.
pub struct VarMap {
    pub entries: Vec<(String, String)>,
}

impl View for VarMap {
    type V = Seq<(Seq<char>, Seq<char>)>;

    open spec fn view(&self) -> Seq<(Seq<char>, Seq<char>)> {
        self.entries.deep_view()
    }
}

/// The value bound to `k`, taking the latest binding.
pub open spec fn map_lookup(m: Seq<(Seq<char>, Seq<char>)>, k: Seq<char>) -> Option<Seq<char>>
    decreases m.len(),
{
    if m.len() == 0 {
        None
    } else if m[m.len() - 1].0 == k {
        Some(m[m.len() - 1].1)
    } else {
        map_lookup(m.drop_last(), k)
    }
}

/// A binding whose key occurs nowhere later in the list is what lookup
/// returns.
proof fn lemma_lookup_at(m: Seq<(Seq<char>, Seq<char>)>, k: Seq<char>, i: int)
    requires
        0 <= i < m.len(),
        m[i].0 == k,
        forall|j: int| i < j < m.len() ==> m[j].0 != k,
    ensures
        map_lookup(m, k) == Some(m[i].1),
    decreases m.len(),
{
    if i == m.len() - 1 {
    } else {
        assert(m.drop_last()[i] == m[i]);
        lemma_lookup_at(m.drop_last(), k, i);
    }
}

/// If no binding has key `k`, lookup fails.
proof fn lemma_lookup_absent(m: Seq<(Seq<char>, Seq<char>)>, k: Seq<char>)
    requires
        forall|j: int| 0 <= j < m.len() ==> m[j].0 != k,
    ensures
        map_lookup(m, k) is None,
    decreases m.len(),
{
    if m.len() > 0 {
        lemma_lookup_absent(m.drop_last(), k);
    }
}

impl VarMap {
    /// An empty map.
    pub fn new() -> (r: VarMap)
        ensures
            r@ =~= Seq::<(Seq<char>, Seq<char>)>::empty(),
    {
        let r = VarMap { entries: Vec::new() };
        proof {
            assert(r@ =~~= Seq::<(Seq<char>, Seq<char>)>::empty());
        }
        r
    }

    /// Binds `k` to `v`, overriding any earlier binding.
    pub fn insert(&mut self, k: String, v: String)
        ensures
            final(self)@ == old(self)@.push((k@, v@)),
    {
        let ghost before = self@;
        self.entries.push((k, v));
        proof {
            assert(self@ =~~= before.push((self.entries@[self.entries@.len() - 1].0@,
                self.entries@[self.entries@.len() - 1].1@)));
        }
    }

    /// Looks `key` up, returning the latest binding.
    pub fn get(&self, key: &[char]) -> (r: Option<&String>)
        ensures
            match r {
                Some(v) => map_lookup(self@, key@) == Some(v@),
                None => map_lookup(self@, key@) is None,
            },
    {
        let n: usize = self.entries.len();
        let mut i: usize = n;
        while i > 0
            invariant
                n == self.entries@.len(),
                i <= n,
                forall|j: int| i <= j < n ==> self@[j].0 != key@,
            decreases i,
        {
            i = i - 1;
            let ek = str_to_chars(self.entries[i].0.as_str());
            if chars_eq(ek.as_slice(), key) {
                proof {
                    assert(self@[i as int].0 == key@);
                    lemma_lookup_at(self@, key@, i as int);
                }
                return Some(&self.entries[i].1);
            }
            proof {
                assert(self@[i as int].0 != key@);
            }
        }
        proof {
            lemma_lookup_absent(self@, key@);
        }
        None
    }

}

/// Whether `c` can begin a shell identifier.
pub open spec fn is_ident_start_char(c: char) -> bool {
    (97 <= c as u32 && c as u32 <= 122) || (65 <= c as u32 && c as u32 <= 90) || c == '_'
}

/// Whether `c` can continue a shell identifier.
pub open spec fn is_ident_char(c: char) -> bool {
    is_ident_start_char(c) || crate::text::is_digit_char(c)
}

/// Whether `s` is a shell identifier.
pub open spec fn is_ident(s: Seq<char>) -> bool {
    s.len() >= 1 && is_ident_start_char(s[0]) && (forall|i: int|
        0 <= i < s.len() ==> is_ident_char(s[i]))
}

fn is_ident_start_exec(c: char) -> (b: bool)
    ensures
        b == is_ident_start_char(c),
{
    let cu = c as u32;
    (97 <= cu && cu <= 122) || (65 <= cu && cu <= 90) || c == '_'
}

fn is_ident_char_exec(c: char) -> (b: bool)
    ensures
        b == is_ident_char(c),
{
    let cu = c as u32;
    is_ident_start_exec(c) || (48 <= cu && cu <= 57)
}

/// Whether the characters form a shell identifier.
pub fn is_ident_chars(s: &[char]) -> (b: bool)
    ensures
        b == is_ident(s@),
{
    let n: usize = s.len();
    if n == 0 {
        return false;
    }
    if !is_ident_start_exec(s[0]) {
        return false;
    }
    let mut i: usize = 0;
    while i < n
        invariant
            n == s@.len(),
            i <= n,
            forall|k: int| 0 <= k < i ==> is_ident_char(s@[k]),
        decreases n - i,
    {
        if !is_ident_char_exec(s[i]) {
            return false;
        }
        i = i + 1;
    }
    true
}

/// A scalar assignment `name=value`, where the value is non-empty and does
/// not begin an array.
pub open spec fn scalar_match_spec(t: Seq<char>) -> Option<(Seq<char>, Seq<char>)> {
    match find_in(t, seq!['=']) {
        Some(p) => if is_ident(t.subrange(0, p)) && p + 1 < t.len() && t[p + 1] != '(' {
            Some((t.subrange(0, p), t.subrange(p + 1, t.len() as int)))
        } else {
            None
        },
        None => None,
    }
}

/// An array assignment opener `name=(rest`.
pub open spec fn array_start_match_spec(t: Seq<char>) -> Option<(Seq<char>, Seq<char>)> {
    match find_in(t, seq!['=']) {
        Some(p) => if is_ident(t.subrange(0, p)) && p + 1 < t.len() && t[p + 1] == '(' {
            Some((t.subrange(0, p), t.subrange(p + 2, t.len() as int)))
        } else {
            None
        },
        None => None,
    }
}

fn eq_pattern() -> (r: Vec<char>)
    ensures
        r@ == seq!['='],
{
    let mut v: Vec<char> = Vec::new();
    v.push('=');
    proof {
        assert(v@ =~= seq!['=']);
    }
    v
}

/// Recognises a scalar assignment on a trimmed line.
pub fn scalar_match(t: &[char]) -> (r: Option<(Vec<char>, Vec<char>)>)
    ensures
        match r {
            Some(nv) => scalar_match_spec(t@) == Some((nv.0@, nv.1@)),
            None => scalar_match_spec(t@) is None,
        },
{
    let eq = eq_pattern();
    let n: usize = t.len();
    match find_sub(t, eq.as_slice()) {
        Some(p) => {
            proof {
                crate::text::lemma_find_from_some(t@, seq!['='], 0, p as int);
            }
            if is_ident_chars(&t[0..p]) && p + 1 < n && t[p + 1] != '(' {
                let mut name: Vec<char> = Vec::new();
                name.extend_from_slice(&t[0..p]);
                let mut value: Vec<char> = Vec::new();
                value.extend_from_slice(&t[p + 1..n]);
                proof {
                    assert(name@ =~= t@.subrange(0, p as int));
                    assert(value@ =~= t@.subrange(p + 1, t@.len() as int));
                }
                Some((name, value))
            } else {
                None
            }
        },
        None => None,
    }
}

/// Recognises an array opener on a trimmed line.
pub fn array_start_match(t: &[char]) -> (r: Option<(Vec<char>, Vec<char>)>)
    ensures
        match r {
            Some(nv) => array_start_match_spec(t@) == Some((nv.0@, nv.1@)),
            None => array_start_match_spec(t@) is None,
        },
{
    let eq = eq_pattern();
    let n: usize = t.len();
    match find_sub(t, eq.as_slice()) {
        Some(p) => {
            proof {
                crate::text::lemma_find_from_some(t@, seq!['='], 0, p as int);
            }
            if is_ident_chars(&t[0..p]) && p + 1 < n && t[p + 1] == '(' {
                let mut name: Vec<char> = Vec::new();
                name.extend_from_slice(&t[0..p]);
                let mut rest: Vec<char> = Vec::new();
                rest.extend_from_slice(&t[p + 2..n]);
                proof {
                    assert(name@ =~= t@.subrange(0, p as int));
                    assert(rest@ =~= t@.subrange(p + 2, t@.len() as int));
                }
                Some((name, rest))
            } else {
                None
            }
        },
        None => None,
    }
}

/// The value with one level of surrounding matching quotes stripped, after
/// trimming.
pub open spec fn strip_quotes_spec(value: Seq<char>) -> Seq<char> {
    let t = trim_spec(value);
    if t.len() >= 2 && ((t[0] == '"' && t[t.len() - 1] == '"') || (t[0] == '\'' && t[t.len() - 1]
        == '\'')) {
        t.subrange(1, t.len() - 1)
    } else {
        t
    }
}

/// One step of the array-element lexer: `i` scans `line`, `cur` is the
/// element being read, `acc` the elements already read.
pub open spec fn pae_loop(
    line: Seq<char>,
    i: int,
    in_q: bool,
    qc: char,
    cur: Seq<char>,
    acc: Seq<Seq<char>>,
) -> Seq<Seq<char>>
    decreases line.len() - i,
{
    if !(0 <= i < line.len()) {
        if cur.len() > 0 {
            acc.push(cur)
        } else {
            acc
        }
    } else {
        let c = line[i];
        if (c == '"' || c == '\'') && !in_q {
            pae_loop(line, i + 1, true, c, cur, acc)
        } else if in_q && c == qc {
            pae_loop(line, i + 1, false, qc, Seq::empty(), if cur.len() > 0 {
                acc.push(cur)
            } else {
                acc
            })
        } else if c == ')' && !in_q {
            if cur.len() > 0 {
                acc.push(cur)
            } else {
                acc
            }
        } else if (c == ' ' || c == '\t') && !in_q {
            pae_loop(line, i + 1, in_q, qc, Seq::empty(), if cur.len() > 0 {
                acc.push(cur)
            } else {
                acc
            })
        } else if c == '#' && !in_q {
            if cur.len() > 0 {
                acc.push(cur)
            } else {
                acc
            }
        } else if c == '(' && !in_q {
            pae_loop(line, i + 1, in_q, qc, cur, acc)
        } else {
            pae_loop(line, i + 1, in_q, qc, cur.push(c), acc)
        }
    }
}

/// The whitespace-separated, quote-respecting elements of one array line;
/// a `)` or `#` outside quotes ends the line.
pub open spec fn parse_array_elements_spec(line: Seq<char>) -> Seq<Seq<char>> {
    pae_loop(line, 0, false, ' ', Seq::empty(), Seq::empty())
}

/// The view of an optional string.
pub open spec fn opt_view(o: Option<String>) -> Option<Seq<char>> {
    match o {
        Some(s) => Some(s@),
        None => None,
    }
}

/// A parsed PKGBUILD.
pub struct Pkgbuild {
    /// Package name (`pkgname`, or `pkgbase` for split recipes).
    pub pkgname: String,
    /// Package version (`pkgver`).
    pub pkgver: String,
    /// Package release number (`pkgrel`), kept as written.
    pub pkgrel: String,
    /// Epoch, prepended to the version when present.
    pub epoch: Option<String>,
    /// One-line description (`pkgdesc`).
    pub pkgdesc: String,
    /// Upstream URL.
    pub url: String,
    /// Architectures.
    pub arch: Vec<String>,
    /// Licenses.
    pub license: Vec<String>,
    /// Runtime dependencies.
    pub depends: Vec<String>,
    /// Build dependencies.
    pub makedepends: Vec<String>,
    /// Check dependencies.
    pub checkdepends: Vec<String>,
    /// Optional dependencies, with attached descriptions.
    pub optdepends: Vec<String>,
    /// Packages this provides.
    pub provides: Vec<String>,
    /// Packages this conflicts with.
    pub conflicts: Vec<String>,
    /// Packages this replaces.
    pub replaces: Vec<String>,
    /// Source URLs.
    pub source: Vec<String>,
    /// SHA-256 checksums.
    pub sha256sums: Vec<String>,
    /// SHA-512 checksums.
    pub sha512sums: Vec<String>,
    /// MD5 checksums.
    pub md5sums: Vec<String>,
    /// BLAKE2 checksums.
    pub b2sums: Vec<String>,
    /// Package groups.
    pub groups: Vec<String>,
    /// Backup (configuration) files.
    pub backup: Vec<String>,
    /// Build options.
    pub options: Vec<String>,
    /// Install scriptlet path.
    pub install: Option<String>,
    /// Changelog path.
    pub changelog: Option<String>,
    /// `prepare()` body.
    pub prepare_func: Option<String>,
    /// `build()` body.
    pub build_func: Option<String>,
    /// `check()` body.
    pub check_func: Option<String>,
    /// `package()` body.
    pub package_func: Option<String>,
    /// `package_<name>()` bodies for split recipes.
    pub package_funcs: VarMap,
    /// Every raw scalar or array seen, arrays joined by newline.
    pub raw_variables: VarMap,
}

/// All fields of `p` are empty.
pub open spec fn pkgbuild_empty(p: &Pkgbuild) -> bool {
    &&& p.pkgname@ == Seq::<char>::empty()
    &&& p.pkgver@ == Seq::<char>::empty()
    &&& p.pkgrel@ == Seq::<char>::empty()
    &&& p.epoch is None
    &&& p.pkgdesc@ == Seq::<char>::empty()
    &&& p.url@ == Seq::<char>::empty()
    &&& p.arch@.len() == 0
    &&& p.license@.len() == 0
    &&& p.depends@.len() == 0
    &&& p.makedepends@.len() == 0
    &&& p.checkdepends@.len() == 0
    &&& p.optdepends@.len() == 0
    &&& p.provides@.len() == 0
    &&& p.conflicts@.len() == 0
    &&& p.replaces@.len() == 0
    &&& p.source@.len() == 0
    &&& p.sha256sums@.len() == 0
    &&& p.sha512sums@.len() == 0
    &&& p.md5sums@.len() == 0
    &&& p.b2sums@.len() == 0
    &&& p.groups@.len() == 0
    &&& p.backup@.len() == 0
    &&& p.options@.len() == 0
    &&& p.install is None
    &&& p.changelog is None
    &&& p.prepare_func is None
    &&& p.build_func is None
    &&& p.check_func is None
    &&& p.package_func is None
    &&& p.package_funcs@ == Seq::<(Seq<char>, Seq<char>)>::empty()
    &&& p.raw_variables@ == Seq::<(Seq<char>, Seq<char>)>::empty()
}

impl Default for Pkgbuild {
    /// An empty recipe.
    fn default() -> (r: Pkgbuild)
        ensures
            pkgbuild_empty(&r),
    {
        let r = Pkgbuild {
            pkgname: String::new(),
            pkgver: String::new(),
            pkgrel: String::new(),
            epoch: None,
            pkgdesc: String::new(),
            url: String::new(),
            arch: Vec::new(),
            license: Vec::new(),
            depends: Vec::new(),
            makedepends: Vec::new(),
            checkdepends: Vec::new(),
            optdepends: Vec::new(),
            provides: Vec::new(),
            conflicts: Vec::new(),
            replaces: Vec::new(),
            source: Vec::new(),
            sha256sums: Vec::new(),
            sha512sums: Vec::new(),
            md5sums: Vec::new(),
            b2sums: Vec::new(),
            groups: Vec::new(),
            backup: Vec::new(),
            options: Vec::new(),
            install: None,
            changelog: None,
            prepare_func: None,
            build_func: None,
            check_func: None,
            package_func: None,
            package_funcs: VarMap::new(),
            raw_variables: VarMap::new(),
        };
        r
    }
}

impl Pkgbuild {
    /// Strips one level of surrounding matching quotes from a value.
    pub fn strip_quotes(&self, value: &str) -> (r: String)
        ensures
            r@ == strip_quotes_spec(value@),
    {
        let vc = str_to_chars(value);
        let t = trim_chars(vc.as_slice());
        let n: usize = t.len();
        if n >= 2 && ((t[0] == '"' && t[n - 1] == '"') || (t[0] == '\'' && t[n - 1] == '\'')) {
            let mut inner: Vec<char> = Vec::new();
            inner.extend_from_slice(&t.as_slice()[1..n - 1]);
            proof {
                assert(inner@ =~= trim_spec(value@).subrange(1, trim_spec(value@).len() - 1));
            }
            chars_to_string(inner.as_slice())
        } else {
            chars_to_string(t.as_slice())
        }
    }

    /// Splits one array line into its elements.
    pub fn parse_array_elements(&self, line: &str) -> (r: Vec<String>)
        ensures
            r.deep_view() == parse_array_elements_spec(line@),
    {
        let lc = str_to_chars(line);
        parse_array_elements_chars(lc.as_slice())
    }
}

/// Whether a trimmed line opens or holds a shell function definition.
pub open spec fn is_func_def_line(t: Seq<char>) -> bool {
    (find_in(t, seq!['(', ')']) is Some && t.contains('{')) || ends_with_spec(
        t,
        seq!['(', ')', ' ', '{'],
    ) || ends_with_spec(t, seq!['(', ')', '{'])
}

fn parens_pattern() -> (r: Vec<char>)
    ensures
        r@ == seq!['(', ')'],
{
    let mut v: Vec<char> = Vec::new();
    v.push('(');
    v.push(')');
    proof {
        assert(v@ =~= seq!['(', ')']);
    }
    v
}

fn dollar_paren_pattern() -> (r: Vec<char>)
    ensures
        r@ == seq!['$', '('],
{
    let mut v: Vec<char> = Vec::new();
    v.push('$');
    v.push('(');
    proof {
        assert(v@ =~= seq!['$', '(']);
    }
    v
}

fn is_func_def_line_exec(t: &[char]) -> (b: bool)
    ensures
        b == is_func_def_line(t@),
{
    let parens = parens_pattern();
    if find_sub(t, parens.as_slice()).is_some() && contains_char(t, '{') {
        return true;
    }
    let mut suffix1: Vec<char> = Vec::new();
    suffix1.push('(');
    suffix1.push(')');
    suffix1.push(' ');
    suffix1.push('{');
    proof {
        assert(suffix1@ =~= seq!['(', ')', ' ', '{']);
    }
    if ends_with_chars(t, suffix1.as_slice()) {
        return true;
    }
    let mut suffix2: Vec<char> = Vec::new();
    suffix2.push('(');
    suffix2.push(')');
    suffix2.push('{');
    proof {
        assert(suffix2@ =~= seq!['(', ')', '{']);
    }
    ends_with_chars(t, suffix2.as_slice())
}

/// The state of the variable-extraction pass: the bindings made so far,
/// the open array's name, its elements so far, and whether an array is
/// open.
pub type EvState = (Seq<(Seq<char>, Seq<char>)>, Option<Seq<char>>, Seq<Seq<char>>, bool);

/// The starting state of the variable-extraction pass.
pub open spec fn ev_init() -> EvState {
    (Seq::empty(), None, Seq::empty(), false)
}

/// The variable-extraction pass over one line.
pub open spec fn ev_line_step(st: EvState, line: Seq<char>) -> EvState {
    let t = trim_spec(line);
    if !st.3 && (t.len() == 0 || t[0] == '#') {
        st
    } else if is_func_def_line(t) {
        st
    } else if st.3 {
        let elems = st.2 + parse_array_elements_spec(t);
        if t.contains(')') && find_in(t, seq!['$', '(']) is None {
            (
                match st.1 {
                    Some(name) => st.0.push((name, join_nl(elems))),
                    None => st.0,
                },
                None,
                Seq::empty(),
                false,
            )
        } else {
            (st.0, st.1, elems, true)
        }
    } else {
        match array_start_match_spec(t) {
            Some(nr) => {
                let elems = parse_array_elements_spec(nr.1);
                if nr.1.contains(')') && find_in(nr.1, seq!['$', '(']) is None {
                    (st.0.push((nr.0, join_nl(elems))), None, Seq::empty(), false)
                } else {
                    (st.0, Some(nr.0), elems, true)
                }
            },
            None => match scalar_match_spec(t) {
                Some(nv) => (st.0.push((nv.0, strip_quotes_spec(nv.1))), st.1, st.2, st.3),
                None => st,
            },
        }
    }
}

/// The variable-extraction pass over a sequence of lines.
pub open spec fn ev_lines(st: EvState, lines: Seq<Seq<char>>) -> EvState
    decreases lines.len(),
{
    if lines.len() == 0 {
        st
    } else {
        ev_lines(ev_line_step(st, lines[0]), lines.drop_first())
    }
}

proof fn lemma_ev_lines_snoc(st: EvState, lines: Seq<Seq<char>>, x: Seq<char>)
    ensures
        ev_lines(st, lines.push(x)) == ev_line_step(ev_lines(st, lines), x),
    decreases lines.len(),
{
    if lines.len() == 0 {
        assert(lines.push(x).drop_first() =~= Seq::<Seq<char>>::empty());
        assert(lines.push(x)[0] == x);
        assert(ev_lines(st, lines.push(x)) == ev_lines(
            ev_line_step(st, x),
            lines.push(x).drop_first(),
        ));
        assert(ev_lines(ev_line_step(st, x), Seq::<Seq<char>>::empty()) == ev_line_step(st, x));
        assert(ev_lines(st, lines) == st);
    } else {
        assert(lines.push(x).drop_first() =~= lines.drop_first().push(x));
        assert(lines.push(x)[0] == lines[0]);
        assert(ev_lines(st, lines.push(x)) == ev_lines(
            ev_line_step(st, lines[0]),
            lines.drop_first().push(x),
        ));
        lemma_ev_lines_snoc(ev_line_step(st, lines[0]), lines.drop_first(), x);
        assert(ev_lines(st, lines) == ev_lines(ev_line_step(st, lines[0]), lines.drop_first()));
    }
}

/// The raw variables of a PKGBUILD text.
pub open spec fn vars_of(text: Seq<char>) -> Seq<(Seq<char>, Seq<char>)> {
    ev_lines(ev_init(), split_lines_spec(text)).0
}

/// The view of an optional character vector.
pub open spec fn opt_chars_view(o: Option<Vec<char>>) -> Option<Seq<char>> {
    match o {
        Some(v) => Some(v@),
        None => None,
    }
}

fn strip_quotes_chars(value: &[char]) -> (r: String)
    ensures
        r@ == strip_quotes_spec(value@),
{
    let tv = trim_chars(value);
    let tn: usize = tv.len();
    if tn >= 2 && ((tv[0] == '"' && tv[tn - 1] == '"') || (tv[0] == '\'' && tv[tn - 1] == '\'')) {
        let mut inner: Vec<char> = Vec::new();
        inner.extend_from_slice(&tv.as_slice()[1..tn - 1]);
        proof {
            assert(inner@ =~= trim_spec(value@).subrange(1, trim_spec(value@).len() - 1));
        }
        chars_to_string(inner.as_slice())
    } else {
        chars_to_string(tv.as_slice())
    }
}

fn parse_array_elements_chars(lc: &[char]) -> (r: Vec<String>)
    ensures
        r.deep_view() == parse_array_elements_spec(lc@),
{
    let n: usize = lc.len();
    let mut elements: Vec<String> = Vec::new();
    let mut current: Vec<char> = Vec::new();
    let mut in_quotes = false;
    let mut quote_char: char = ' ';
    let mut i: usize = 0;
    proof {
        assert(elements.deep_view() =~~= Seq::<Seq<char>>::empty());
        assert(current@ =~= Seq::<char>::empty());
    }
    while i < n
        invariant
            n == lc@.len(),
            i <= n,
            parse_array_elements_spec(lc@) == pae_loop(
                lc@,
                i as int,
                in_quotes,
                quote_char,
                current@,
                elements.deep_view(),
            ),
        decreases n - i,
    {
        let ghost acc0 = elements.deep_view();
        let ghost cur0 = current@;
        let ghost q0 = in_quotes;
        let ghost qc0 = quote_char;
        let ghost i0 = i as int;
        let c = lc[i];
        if (c == '"' || c == '\'') && !in_quotes {
            in_quotes = true;
            quote_char = c;
        } else if in_quotes && c == quote_char {
            in_quotes = false;
            if current.len() > 0 {
                elements.push(chars_to_string(current.as_slice()));
                current.clear();
                proof {
                    assert(elements.deep_view() =~~= acc0.push(cur0));
                }
            }
            proof {
                assert(current@ =~= Seq::<char>::empty());
            }
        } else if c == ')' && !in_quotes {
            if current.len() > 0 {
                elements.push(chars_to_string(current.as_slice()));
                current.clear();
                proof {
                    assert(elements.deep_view() =~~= acc0.push(cur0));
                }
            }
            return elements;
        } else if (c == ' ' || c == '\t') && !in_quotes {
            if current.len() > 0 {
                elements.push(chars_to_string(current.as_slice()));
                current.clear();
                proof {
                    assert(elements.deep_view() =~~= acc0.push(cur0));
                }
            }
            proof {
                assert(current@ =~= Seq::<char>::empty());
            }
        } else if c == '#' && !in_quotes {
            proof {
                if cur0.len() > 0 {
                    assert(pae_loop(lc@, i as int, in_quotes, quote_char, cur0, acc0)
                        == acc0.push(cur0));
                }
            }
            if current.len() > 0 {
                elements.push(chars_to_string(current.as_slice()));
                proof {
                    assert(elements.deep_view() =~~= acc0.push(cur0));
                }
            }
            return elements;
        } else if c == '(' && !in_quotes {
        } else {
            current.push(c);
        }
        i = i + 1;
        proof {
            assert(pae_loop(lc@, i0, q0, qc0, cur0, acc0) == pae_loop(
                lc@,
                i as int,
                in_quotes,
                quote_char,
                current@,
                elements.deep_view(),
            ));
        }
    }
    if current.len() > 0 {
        let ghost acc0 = elements.deep_view();
        let ghost cur0 = current@;
        elements.push(chars_to_string(current.as_slice()));
        proof {
            assert(elements.deep_view() =~~= acc0.push(cur0));
        }
    }
    elements
}

/// Runs the variable-extraction pass over the lines of a PKGBUILD.
fn extract_variables(lines: &Vec<Vec<char>>) -> (r: VarMap)
    ensures
        r@ == ev_lines(ev_init(), lines.deep_view()).0,
{
    let n: usize = lines.len();
    let mut vars = VarMap::new();
    let mut current_var: Option<Vec<char>> = None;
    let mut current_array: Vec<String> = Vec::new();
    let mut in_array = false;
    let mut i: usize = 0;
    proof {
        assert(current_array.deep_view() =~~= Seq::<Seq<char>>::empty());
        assert((vars@, opt_chars_view(current_var), current_array.deep_view(), in_array)
            == ev_lines(ev_init(), lines.deep_view().take(0)));
    }
    while i < n
        invariant
            n == lines@.len(),
            i <= n,
            (vars@, opt_chars_view(current_var), current_array.deep_view(), in_array) == ev_lines(
                ev_init(),
                lines.deep_view().take(i as int),
            ),
        decreases n - i,
    {
        let ghost st0 = (vars@, opt_chars_view(current_var), current_array.deep_view(), in_array);
        let ghost lview = lines.deep_view()[i as int];
        let t = trim_chars(lines[i].as_slice());
        proof {
            assert(lines@[i as int]@ == lview);
            assert(t@ == trim_spec(lview));
        }
        if !in_array && (t.len() == 0 || t[0] == '#') {
        } else if is_func_def_line_exec(t.as_slice()) {
        } else if in_array {
            let mut elems = parse_array_elements_chars(t.as_slice());
            let ghost ca0 = current_array.deep_view();
            let ghost el0 = elems.deep_view();
            current_array.append(&mut elems);
            proof {
                assert(current_array.deep_view() =~~= ca0 + el0);
            }
            let dp = dollar_paren_pattern();
            if contains_char(t.as_slice(), ')') && find_sub(t.as_slice(), dp.as_slice()).is_none() {
                match current_var {
                    Some(name) => {
                        let joined = join_lines(&current_array);
                        vars.insert(
                            chars_to_string(name.as_slice()),
                            chars_to_string(joined.as_slice()),
                        );
                    },
                    None => {},
                }
                current_var = None;
                current_array = Vec::new();
                in_array = false;
                proof {
                    assert(current_array.deep_view() =~~= Seq::<Seq<char>>::empty());
                }
            }
        } else {
            match array_start_match(t.as_slice()) {
                Some((name, rest)) => {
                    let elems = parse_array_elements_chars(rest.as_slice());
                    let dp = dollar_paren_pattern();
                    if contains_char(rest.as_slice(), ')') && find_sub(
                        rest.as_slice(),
                        dp.as_slice(),
                    ).is_none() {
                        let joined = join_lines(&elems);
                        vars.insert(
                            chars_to_string(name.as_slice()),
                            chars_to_string(joined.as_slice()),
                        );
                        current_var = None;
                        current_array = Vec::new();
                        in_array = false;
                        proof {
                            assert(current_array.deep_view() =~~= Seq::<Seq<char>>::empty());
                        }
                    } else {
                        current_var = Some(name);
                        current_array = elems;
                        in_array = true;
                    }
                },
                None => {
                    match scalar_match(t.as_slice()) {
                        Some((name, value)) => {
                            vars.insert(
                                chars_to_string(name.as_slice()),
                                strip_quotes_chars(value.as_slice()),
                            );
                        },
                        None => {},
                    }
                },
            }
        }
        i = i + 1;
        proof {
            lemma_ev_lines_snoc(ev_init(), lines.deep_view().take(i - 1), lview);
            assert(lines.deep_view().take(i as int) =~= lines.deep_view().take(i - 1).push(lview));
            assert(ev_line_step(st0, lview) == (
                vars@,
                opt_chars_view(current_var),
                current_array.deep_view(),
                in_array,
            ));
        }
    }
    proof {
        assert(lines.deep_view().take(n as int) =~= lines.deep_view());
    }
    vars
}

/// One step of the body extraction: lines are scanned from `start`, brace
/// balance `count` runs over whole lines, `started` is set once a `{` was
/// seen, and `body` holds the body lines collected so far.  The result is
/// the joined body and the index of its last line.
pub open spec fn efb_loop(
    lines: Seq<Seq<char>>,
    start: int,
    i: int,
    count: int,
    started: bool,
    body: Seq<Seq<char>>,
) -> (Seq<char>, int)
    decreases lines.len() - i,
{
    if !(0 <= i < lines.len()) {
        (join_nl(body), lines.len() - 1)
    } else {
        let count2 = count + count_char(lines[i], '{') - count_char(lines[i], '}');
        let started2 = started || count_char(lines[i], '{') > 0;
        if started2 {
            let body2 = if i > start {
                body.push(lines[i])
            } else {
                body
            };
            if count2 == 0 {
                let body3 = if body2.len() > 0 && trim_spec(body2.last()) == seq!['}'] {
                    body2.drop_last()
                } else {
                    body2
                };
                (join_nl(body3), i)
            } else {
                efb_loop(lines, start, i + 1, count2, started2, body2)
            }
        } else {
            efb_loop(lines, start, i + 1, count2, started2, body)
        }
    }
}

/// The function body delimited by brace balance starting at the header
/// line `start`; the header line itself is not part of the body, and a
/// final line holding only `}` is removed.
pub open spec fn extract_function_body_spec(lines: Seq<Seq<char>>, start: int) -> (Seq<char>, int) {
    efb_loop(lines, start, start, 0, false, Seq::empty())
}

/// The body extraction ends at or after where it stands, inside the lines.
proof fn lemma_efb_range(
    lines: Seq<Seq<char>>,
    start: int,
    i: int,
    count: int,
    started: bool,
    body: Seq<Seq<char>>,
)
    requires
        0 <= i < lines.len(),
    ensures
        i <= efb_loop(lines, start, i, count, started, body).1 < lines.len(),
    decreases lines.len() - i,
{
    let count2 = count + count_char(lines[i], '{') - count_char(lines[i], '}');
    let started2 = started || count_char(lines[i], '{') > 0;
    if started2 {
        let body2 = if i > start {
            body.push(lines[i])
        } else {
            body
        };
        if count2 == 0 {
        } else {
            if i + 1 < lines.len() {
                lemma_efb_range(lines, start, i + 1, count2, started2, body2);
            } else {
                assert(efb_loop(lines, start, i + 1, count2, started2, body2) == (
                    join_nl(body2),
                    lines.len() - 1,
                ));
            }
        }
    } else {
        if i + 1 < lines.len() {
            lemma_efb_range(lines, start, i + 1, count2, started2, body);
        } else {
            assert(efb_loop(lines, start, i + 1, count2, started2, body) == (
                join_nl(body),
                lines.len() - 1,
            ));
        }
    }
}

fn extract_function_body_chars(lines: &Vec<Vec<char>>, start: usize) -> (r: (Vec<char>, usize))
    requires
        start < lines.deep_view().len(),
        sum_lens(lines.deep_view()) <= u64::MAX,
    ensures
        (r.0@, r.1 as int) == extract_function_body_spec(lines.deep_view(), start as int),
        r.1 < lines.deep_view().len(),
{
    let ghost dv = lines.deep_view();
    let n: usize = lines.len();
    let mut body: Vec<String> = Vec::new();
    let mut count: i128 = 0;
    let mut started = false;
    let mut i: usize = start;
    proof {
        assert(body.deep_view() =~~= Seq::<Seq<char>>::empty());
        lemma_sum_lens_subrange(dv, start as int, start as int);
        assert(dv.subrange(start as int, start as int) =~= Seq::<Seq<char>>::empty());
    }
    while i < n
        invariant
            dv == lines.deep_view(),
            n == dv.len(),
            start <= i <= n,
            sum_lens(dv) <= u64::MAX,
            count <= sum_lens(dv.subrange(start as int, i as int)),
            -count <= sum_lens(dv.subrange(start as int, i as int)),
            extract_function_body_spec(dv, start as int) == efb_loop(
                dv,
                start as int,
                i as int,
                count as int,
                started,
                body.deep_view(),
            ),
        decreases n - i,
    {
        let ghost count0 = count as int;
        let ghost started0 = started;
        let ghost body0 = body.deep_view();
        let line = &lines[i];
        proof {
            assert(line@ == dv[i as int]);
            lemma_count_char_bounds(dv[i as int], '{');
            lemma_count_char_bounds(dv[i as int], '}');
            lemma_sum_lens_subrange(dv, start as int, i + 1);
            assert(dv.subrange(start as int, i + 1).drop_last() =~= dv.subrange(
                start as int,
                i as int,
            ));
            assert(dv.subrange(start as int, i + 1).last() == dv[i as int]);
            assert(sum_lens(dv.subrange(start as int, i + 1)) == sum_lens(
                dv.subrange(start as int, i as int),
            ) + dv[i as int].len());
        }
        let opens: usize = count_char_exec(line.as_slice(), '{');
        let closes: usize = count_char_exec(line.as_slice(), '}');
        count = count + opens as i128 - closes as i128;
        if opens > 0 {
            started = true;
        }
        if started {
            if i > start {
                body.push(chars_to_string(line.as_slice()));
                proof {
                    assert(body.deep_view() =~~= body0.push(dv[i as int]));
                }
            }
            if count == 0 {
                let mut trailing = false;
                if body.len() > 0 {
                    let last_chars = str_to_chars(body[body.len() - 1].as_str());
                    let tl = trim_chars(last_chars.as_slice());
                    if tl.len() == 1 && tl[0] == '}' {
                        trailing = true;
                        proof {
                            assert(trim_spec(body.deep_view().last()) =~= seq!['}']);
                        }
                    } else {
                        proof {
                            assert(trim_spec(body.deep_view().last()) != seq!['}']);
                        }
                    }
                }
                let ghost body2 = body.deep_view();
                if trailing {
                    body.pop();
                    proof {
                        assert(body.deep_view() =~~= body2.drop_last());
                    }
                }
                let joined = join_lines(&body);
                return (joined, i);
            }
        }
        i = i + 1;
        proof {
            assert(efb_loop(dv, start as int, i - 1, count0, started0, body0) == efb_loop(
                dv,
                start as int,
                i as int,
                count as int,
                started,
                body.deep_view(),
            ));
        }
    }
    let joined = join_lines(&body);
    (joined, n - 1)
}

/// The first index at or past `i` whose character is not whitespace.
pub open spec fn skip_spaces_from(t: Seq<char>, i: int) -> int
    decreases t.len() - i,
{
    if 0 <= i < t.len() && is_space_char(t[i]) {
        skip_spaces_from(t, i + 1)
    } else {
        i
    }
}

/// The first index at or past `i` whose character cannot continue an
/// identifier.
pub open spec fn ident_end_from(t: Seq<char>, i: int) -> int
    decreases t.len() - i,
{
    if 0 <= i < t.len() && is_ident_char(t[i]) {
        ident_end_from(t, i + 1)
    } else {
        i
    }
}

/// A function header `name ( ) {` on a trimmed line: an identifier, then
/// `(`, `)` and `{`, each after optional whitespace.
pub open spec fn func_header_match_spec(t: Seq<char>) -> Option<Seq<char>> {
    if t.len() == 0 || !is_ident_start_char(t[0]) {
        None
    } else {
        let e = ident_end_from(t, 0);
        let p1 = skip_spaces_from(t, e);
        if p1 < t.len() && t[p1] == '(' {
            let p2 = skip_spaces_from(t, p1 + 1);
            if p2 < t.len() && t[p2] == ')' {
                let p3 = skip_spaces_from(t, p2 + 1);
                if p3 < t.len() && t[p3] == '{' {
                    Some(t.subrange(0, e))
                } else {
                    None
                }
            } else {
                None
            }
        } else {
            None
        }
    }
}

proof fn lemma_skip_spaces_range(t: Seq<char>, i: int)
    requires
        0 <= i <= t.len(),
    ensures
        i <= skip_spaces_from(t, i) <= t.len(),
    decreases t.len() - i,
{
    if i < t.len() && is_space_char(t[i]) {
        lemma_skip_spaces_range(t, i + 1);
    }
}

proof fn lemma_ident_end_range(t: Seq<char>, i: int)
    requires
        0 <= i <= t.len(),
    ensures
        i <= ident_end_from(t, i) <= t.len(),
    decreases t.len() - i,
{
    if i < t.len() && is_ident_char(t[i]) {
        lemma_ident_end_range(t, i + 1);
    }
}

fn skip_spaces_exec(t: &[char], i: usize) -> (r: usize)
    requires
        i <= t@.len(),
    ensures
        r as int == skip_spaces_from(t@, i as int),
        i <= r <= t@.len(),
{
    let n: usize = t.len();
    let mut j: usize = i;
    while j < n && crate::text::is_space(t[j])
        invariant
            n == t@.len(),
            i <= j <= n,
            skip_spaces_from(t@, i as int) == skip_spaces_from(t@, j as int),
        decreases n - j,
    {
        j = j + 1;
    }
    j
}

fn ident_end_exec(t: &[char], i: usize) -> (r: usize)
    requires
        i <= t@.len(),
    ensures
        r as int == ident_end_from(t@, i as int),
        i <= r <= t@.len(),
{
    let n: usize = t.len();
    let mut j: usize = i;
    while j < n && is_ident_char_exec(t[j])
        invariant
            n == t@.len(),
            i <= j <= n,
            ident_end_from(t@, i as int) == ident_end_from(t@, j as int),
        decreases n - j,
    {
        j = j + 1;
    }
    j
}

/// Recognises a function header on a trimmed line.
fn func_header_match(t: &[char]) -> (r: Option<Vec<char>>)
    ensures
        match r {
            Some(name) => func_header_match_spec(t@) == Some(name@),
            None => func_header_match_spec(t@) is None,
        },
{
    let n: usize = t.len();
    if n == 0 || !is_ident_start_exec(t[0]) {
        return None;
    }
    let e = ident_end_exec(t, 0);
    let p1 = skip_spaces_exec(t, e);
    if !(p1 < n && t[p1] == '(') {
        return None;
    }
    let p2 = skip_spaces_exec(t, p1 + 1);
    if !(p2 < n && t[p2] == ')') {
        return None;
    }
    let p3 = skip_spaces_exec(t, p2 + 1);
    if !(p3 < n && t[p3] == '{') {
        return None;
    }
    let mut name: Vec<char> = Vec::new();
    name.extend_from_slice(&t[0..e]);
    proof {
        assert(name@ =~= t@.subrange(0, e as int));
    }
    Some(name)
}

/// The function-extraction pass from line `i`: collects `(name, body)`
/// pairs in order, resuming after each extracted body.
pub open spec fn ef_loop(
    lines: Seq<Seq<char>>,
    i: int,
    funcs: Seq<(Seq<char>, Seq<char>)>,
) -> Seq<(Seq<char>, Seq<char>)>
    decreases lines.len() - i,
    via ef_loop_decreases
{
    if !(0 <= i < lines.len()) {
        funcs
    } else {
        match func_header_match_spec(trim_spec(lines[i])) {
            Some(name) => {
                let be = extract_function_body_spec(lines, i);
                ef_loop(lines, be.1 + 1, funcs.push((name, be.0)))
            },
            None => ef_loop(lines, i + 1, funcs),
        }
    }
}

#[via_fn]
proof fn ef_loop_decreases(lines: Seq<Seq<char>>, i: int, funcs: Seq<(Seq<char>, Seq<char>)>) {
    if 0 <= i < lines.len() {
        lemma_efb_range(lines, i, i, 0, false, Seq::empty());
    }
}

/// The named function bodies of a PKGBUILD text, in order of appearance.
pub open spec fn funcs_of(text: Seq<char>) -> Seq<(Seq<char>, Seq<char>)> {
    ef_loop(split_lines_spec(text), 0, Seq::empty())
}

/// Runs the function-extraction pass over the lines of a PKGBUILD.
fn extract_functions(lines: &Vec<Vec<char>>) -> (r: Vec<(String, String)>)
    requires
        sum_lens(lines.deep_view()) <= u64::MAX,
    ensures
        r.deep_view() == ef_loop(lines.deep_view(), 0, Seq::empty()),
{
    let ghost dv = lines.deep_view();
    let n: usize = lines.len();
    let mut funcs: Vec<(String, String)> = Vec::new();
    let mut i: usize = 0;
    proof {
        assert(funcs.deep_view() =~~= Seq::<(Seq<char>, Seq<char>)>::empty());
    }
    while i < n
        invariant
            dv == lines.deep_view(),
            n == dv.len(),
            i <= n,
            sum_lens(dv) <= u64::MAX,
            ef_loop(dv, 0, Seq::empty()) == ef_loop(dv, i as int, funcs.deep_view()),
        decreases n - i,
    {
        let ghost funcs0 = funcs.deep_view();
        let t = trim_chars(lines[i].as_slice());
        proof {
            assert(lines@[i as int]@ == dv[i as int]);
            assert(t@ == trim_spec(dv[i as int]));
        }
        match func_header_match(t.as_slice()) {
            Some(name) => {
                let ghost i0 = i as int;
                let (body, end) = extract_function_body_chars(lines, i);
                proof {
                    lemma_efb_range(dv, i0, i0, 0, false, Seq::<Seq<char>>::empty());
                }
                funcs.push((chars_to_string(name.as_slice()), chars_to_string(body.as_slice())));
                proof {
                    assert(funcs.deep_view() =~~= funcs0.push((name@, body@)));
                }
                i = end + 1;
            },
            None => {
                i = i + 1;
            },
        }
    }
    funcs
}

/// Where extracted functions land: the four named phase bodies, the split
/// `package_<name>` bodies, and `func_<name>` entries for anything else.
pub type DfState = (
    Option<Seq<char>>,
    Option<Seq<char>>,
    Option<Seq<char>>,
    Option<Seq<char>>,
    Seq<(Seq<char>, Seq<char>)>,
    Seq<(Seq<char>, Seq<char>)>,
);

/// The starting distribution state.
pub open spec fn df_init() -> DfState {
    (None, None, None, None, Seq::empty(), Seq::empty())
}

/// Distributes one extracted function into the state.
pub open spec fn df_step(st: DfState, f: (Seq<char>, Seq<char>)) -> DfState {
    if f.0 == "prepare"@ {
        (Some(f.1), st.1, st.2, st.3, st.4, st.5)
    } else if f.0 == "build"@ {
        (st.0, Some(f.1), st.2, st.3, st.4, st.5)
    } else if f.0 == "check"@ {
        (st.0, st.1, Some(f.1), st.3, st.4, st.5)
    } else if f.0 == "package"@ {
        (st.0, st.1, st.2, Some(f.1), st.4, st.5)
    } else if crate::text::starts_with_spec(f.0, "package_"@) {
        (
            st.0,
            st.1,
            st.2,
            st.3,
            st.4.push((f.0.subrange("package_"@.len() as int, f.0.len() as int), f.1)),
            st.5,
        )
    } else {
        (st.0, st.1, st.2, st.3, st.4, st.5.push(("func_"@ + f.0, f.1)))
    }
}

/// Distributes a sequence of extracted functions.
pub open spec fn df_fold(st: DfState, fs: Seq<(Seq<char>, Seq<char>)>) -> DfState
    decreases fs.len(),
{
    if fs.len() == 0 {
        st
    } else {
        df_fold(df_step(st, fs[0]), fs.drop_first())
    }
}

proof fn lemma_df_fold_snoc(st: DfState, fs: Seq<(Seq<char>, Seq<char>)>, x: (Seq<char>, Seq<char>))
    ensures
        df_fold(st, fs.push(x)) == df_step(df_fold(st, fs), x),
    decreases fs.len(),
{
    if fs.len() == 0 {
        assert(fs.push(x).drop_first() =~= Seq::<(Seq<char>, Seq<char>)>::empty());
        assert(fs.push(x)[0] == x);
        assert(df_fold(st, fs.push(x)) == df_fold(df_step(st, x), fs.push(x).drop_first()));
        assert(df_fold(df_step(st, x), Seq::<(Seq<char>, Seq<char>)>::empty()) == df_step(st, x));
        assert(df_fold(st, fs) == st);
    } else {
        assert(fs.push(x).drop_first() =~= fs.drop_first().push(x));
        assert(fs.push(x)[0] == fs[0]);
        assert(df_fold(st, fs.push(x)) == df_fold(df_step(st, fs[0]), fs.drop_first().push(x)));
        lemma_df_fold_snoc(df_step(st, fs[0]), fs.drop_first(), x);
        assert(df_fold(st, fs) == df_fold(df_step(st, fs[0]), fs.drop_first()));
    }
}

/// The string bound to `k`, or empty.
pub open spec fn map_get_str(m: Seq<(Seq<char>, Seq<char>)>, k: Seq<char>) -> Seq<char> {
    match map_lookup(m, k) {
        Some(v) => v,
        None => Seq::empty(),
    }
}

/// The newline-separated list bound to `k`, or empty.
pub open spec fn map_get_array(m: Seq<(Seq<char>, Seq<char>)>, k: Seq<char>) -> Seq<Seq<char>> {
    match map_lookup(m, k) {
        Some(v) => split_lines_spec(v),
        None => Seq::empty(),
    }
}

/// The package name: `pkgname`, or for split recipes `pkgbase` when
/// present, else the first name of the `pkgname` array.
pub open spec fn pkgname_of(m: Seq<(Seq<char>, Seq<char>)>) -> Seq<char> {
    let raw = map_get_str(m, "pkgname"@);
    if raw.contains('\n') {
        match map_lookup(m, "pkgbase"@) {
            Some(b) => b,
            None => if split_lines_spec(raw).len() > 0 {
                split_lines_spec(raw)[0]
            } else {
                Seq::empty()
            },
        }
    } else {
        raw
    }
}

/// The typed fields of `p` hold exactly what the raw variables `m` say.
pub open spec fn populated_from(p: Pkgbuild, m: Seq<(Seq<char>, Seq<char>)>) -> bool {
    &&& p.pkgname@ == pkgname_of(m)
    &&& p.pkgver@ == map_get_str(m, "pkgver"@)
    &&& p.pkgrel@ == map_get_str(m, "pkgrel"@)
    &&& opt_view(p.epoch) == map_lookup(m, "epoch"@)
    &&& p.pkgdesc@ == map_get_str(m, "pkgdesc"@)
    &&& p.url@ == map_get_str(m, "url"@)
    &&& p.arch.deep_view() == map_get_array(m, "arch"@)
    &&& p.license.deep_view() == map_get_array(m, "license"@)
    &&& p.depends.deep_view() == map_get_array(m, "depends"@)
    &&& p.makedepends.deep_view() == map_get_array(m, "makedepends"@)
    &&& p.checkdepends.deep_view() == map_get_array(m, "checkdepends"@)
    &&& p.optdepends.deep_view() == map_get_array(m, "optdepends"@)
    &&& p.provides.deep_view() == map_get_array(m, "provides"@)
    &&& p.conflicts.deep_view() == map_get_array(m, "conflicts"@)
    &&& p.replaces.deep_view() == map_get_array(m, "replaces"@)
    &&& p.source.deep_view() == map_get_array(m, "source"@)
    &&& p.sha256sums.deep_view() == map_get_array(m, "sha256sums"@)
    &&& p.sha512sums.deep_view() == map_get_array(m, "sha512sums"@)
    &&& p.md5sums.deep_view() == map_get_array(m, "md5sums"@)
    &&& p.b2sums.deep_view() == map_get_array(m, "b2sums"@)
    &&& p.groups.deep_view() == map_get_array(m, "groups"@)
    &&& p.backup.deep_view() == map_get_array(m, "backup"@)
    &&& p.options.deep_view() == map_get_array(m, "options"@)
    &&& opt_view(p.install) == map_lookup(m, "install"@)
    &&& opt_view(p.changelog) == map_lookup(m, "changelog"@)
}

fn get_str(m: &VarMap, key: &str) -> (r: String)
    ensures
        r@ == map_get_str(m@, key@),
{
    let kc = str_to_chars(key);
    match m.get(kc.as_slice()) {
        Some(v) => v.clone(),
        None => String::new(),
    }
}

fn lines_to_strings(ls: &Vec<Vec<char>>) -> (r: Vec<String>)
    ensures
        r.deep_view() == ls.deep_view(),
{
    let n: usize = ls.len();
    let mut r: Vec<String> = Vec::new();
    let mut i: usize = 0;
    while i < n
        invariant
            n == ls@.len(),
            i <= n,
            r.deep_view() =~~= ls.deep_view().take(i as int),
        decreases n - i,
    {
        proof {
            assert(ls@[i as int]@ == ls.deep_view()[i as int]);
        }
        let ghost rv0 = r@;
        let ghost rdv0 = r.deep_view();
        r.push(chars_to_string(ls[i].as_slice()));
        i = i + 1;
        proof {
            let dv = ls.deep_view();
            assert(rdv0 == dv.take(i - 1));
            assert(rdv0.len() == i - 1);
            assert(rv0.len() == i - 1);
            assert(r@.len() == i);
            assert forall|k: int| 0 <= k < i implies r.deep_view()[k] == dv.take(i as int)[k] by {
                assert(r.deep_view()[k] == r@[k]@);
                if k < i - 1 {
                    assert(r@[k] == rv0[k]);
                    assert(rdv0[k] == rv0[k]@);
                    assert(rdv0[k] == dv.take(i - 1)[k]);
                } else {
                    assert(r@[k]@ == ls@[k]@);
                }
            }
            assert(r.deep_view() =~~= dv.take(i as int));
        }
    }
    proof {
        assert(ls.deep_view().take(n as int) =~= ls.deep_view());
    }
    r
}

fn get_array(m: &VarMap, key: &str) -> (r: Vec<String>)
    ensures
        r.deep_view() == map_get_array(m@, key@),
{
    let kc = str_to_chars(key);
    match m.get(kc.as_slice()) {
        Some(v) => {
            let vc = str_to_chars(v.as_str());
            let ls = split_lines(vc.as_slice());
            lines_to_strings(&ls)
        },
        None => {
            let r: Vec<String> = Vec::new();
            proof {
                assert(r.deep_view() =~~= Seq::<Seq<char>>::empty());
            }
            r
        },
    }
}

impl Pkgbuild {
    /// Fills the typed fields from the raw variables.
    pub fn populate_fields(&mut self)
        ensures
            populated_from(*final(self), old(self).raw_variables@),
            final(self).raw_variables@ == old(self).raw_variables@,
            final(self).package_funcs@ == old(self).package_funcs@,
            final(self).prepare_func == old(self).prepare_func,
            final(self).build_func == old(self).build_func,
            final(self).check_func == old(self).check_func,
            final(self).package_func == old(self).package_func,
    {
        let raw_pkgname = get_str(&self.raw_variables, "pkgname");
        let rc = str_to_chars(raw_pkgname.as_str());
        if contains_char(rc.as_slice(), '\n') {
            let bc = str_to_chars("pkgbase");
            match self.raw_variables.get(bc.as_slice()) {
                Some(b) => {
                    self.pkgname = b.clone();
                },
                None => {
                    let ls = split_lines(rc.as_slice());
                    if ls.len() > 0 {
                        proof {
                            assert(ls@[0]@ == ls.deep_view()[0]);
                            assert(ls.deep_view()[0] == split_lines_spec(raw_pkgname@)[0]);
                        }
                        self.pkgname = chars_to_string(ls[0].as_slice());
                    } else {
                        self.pkgname = String::new();
                    }
                },
            }
        } else {
            self.pkgname = raw_pkgname;
        }
        self.pkgver = get_str(&self.raw_variables, "pkgver");
        self.pkgrel = get_str(&self.raw_variables, "pkgrel");
        let ec = str_to_chars("epoch");
        self.epoch = match self.raw_variables.get(ec.as_slice()) {
            Some(v) => Some(v.clone()),
            None => None,
        };
        self.pkgdesc = get_str(&self.raw_variables, "pkgdesc");
        self.url = get_str(&self.raw_variables, "url");
        self.arch = get_array(&self.raw_variables, "arch");
        self.license = get_array(&self.raw_variables, "license");
        self.depends = get_array(&self.raw_variables, "depends");
        self.makedepends = get_array(&self.raw_variables, "makedepends");
        self.checkdepends = get_array(&self.raw_variables, "checkdepends");
        self.optdepends = get_array(&self.raw_variables, "optdepends");
        self.provides = get_array(&self.raw_variables, "provides");
        self.conflicts = get_array(&self.raw_variables, "conflicts");
        self.replaces = get_array(&self.raw_variables, "replaces");
        self.source = get_array(&self.raw_variables, "source");
        self.sha256sums = get_array(&self.raw_variables, "sha256sums");
        self.sha512sums = get_array(&self.raw_variables, "sha512sums");
        self.md5sums = get_array(&self.raw_variables, "md5sums");
        self.b2sums = get_array(&self.raw_variables, "b2sums");
        self.groups = get_array(&self.raw_variables, "groups");
        self.backup = get_array(&self.raw_variables, "backup");
        self.options = get_array(&self.raw_variables, "options");
        let ic = str_to_chars("install");
        self.install = match self.raw_variables.get(ic.as_slice()) {
            Some(v) => Some(v.clone()),
            None => None,
        };
        let cc = str_to_chars("changelog");
        self.changelog = match self.raw_variables.get(cc.as_slice()) {
            Some(v) => Some(v.clone()),
            None => None,
        };
    }
}

/// The raw map a text parses to: its variables, then the `func_<name>`
/// entries for functions without a field of their own.
pub open spec fn raw_map_of(text: Seq<char>) -> Seq<(Seq<char>, Seq<char>)> {
    vars_of(text) + df_fold(df_init(), funcs_of(text)).5
}

/// Whether a text parses successfully: it must yield a non-empty package
/// name and a non-empty version.
pub open spec fn parse_accepts(text: Seq<char>) -> bool {
    pkgname_of(raw_map_of(text)).len() > 0 && map_get_str(raw_map_of(text), "pkgver"@).len() > 0
}

/// A parsed recipe reflects its text: raw variables, distributed function
/// bodies, and populated fields.
pub open spec fn parse_ok(p: Pkgbuild, text: Seq<char>) -> bool {
    let st = df_fold(df_init(), funcs_of(text));
    let m = raw_map_of(text);
    &&& p.raw_variables@ == m
    &&& opt_view(p.prepare_func) == st.0
    &&& opt_view(p.build_func) == st.1
    &&& opt_view(p.check_func) == st.2
    &&& opt_view(p.package_func) == st.3
    &&& p.package_funcs@ == st.4
    &&& populated_from(p, m)
}

impl Pkgbuild {
    /// Parses a PKGBUILD text into its structured form; a text that yields
    /// no package name or no version is rejected.
    pub fn parse(content: &str) -> (r: Result<Pkgbuild, RookError>)
        ensures
            r is Ok <==> parse_accepts(content@),
            r matches Ok(p) ==> parse_ok(p, content@) && p.pkgname@.len() > 0 && p.pkgver@.len()
                > 0,
            r is Err ==> r == Err::<Pkgbuild, RookError>(RookError::Parse),
    {
        let chars = str_to_chars(content);
        let text_len: usize = chars.len();
        let lines = split_lines(chars.as_slice());
        proof {
            lemma_split_lines_sum(content@);
            assert(content@.len() == text_len);
            assert(sum_lens(lines.deep_view()) <= u64::MAX);
        }
        let vars = extract_variables(&lines);
        let funcs = extract_functions(&lines);
        let mut pkg = Pkgbuild::default();
        pkg.raw_variables = vars;
        let ghost vars0 = pkg.raw_variables@;
        let prepare_pat = str_to_chars("prepare");
        let build_pat = str_to_chars("build");
        let check_pat = str_to_chars("check");
        let package_pat = str_to_chars("package");
        let split_pat = str_to_chars("package_");
        let func_pat = str_to_chars("func_");
        let nf: usize = funcs.len();
        let ghost fdv = funcs.deep_view();
        let mut i: usize = 0;
        proof {
            assert(fdv.take(0) =~= Seq::<(Seq<char>, Seq<char>)>::empty());
            assert(pkg.package_funcs@ =~~= Seq::<(Seq<char>, Seq<char>)>::empty());
        }
        while i < nf
            invariant
                nf == funcs@.len(),
                i <= nf,
                fdv == funcs.deep_view(),
                prepare_pat@ == "prepare"@,
                build_pat@ == "build"@,
                check_pat@ == "check"@,
                package_pat@ == "package"@,
                split_pat@ == "package_"@,
                func_pat@ == "func_"@,
                ({
                    let st = df_fold(df_init(), fdv.take(i as int));
                    &&& opt_view(pkg.prepare_func) == st.0
                    &&& opt_view(pkg.build_func) == st.1
                    &&& opt_view(pkg.check_func) == st.2
                    &&& opt_view(pkg.package_func) == st.3
                    &&& pkg.package_funcs@ == st.4
                    &&& pkg.raw_variables@ == vars0 + st.5
                }),
            decreases nf - i,
        {
            let ghost st0 = df_fold(df_init(), fdv.take(i as int));
            let ghost f = fdv[i as int];
            let nc = str_to_chars(funcs[i].0.as_str());
            proof {
                assert(funcs@[i as int].0@ == f.0);
                assert(funcs@[i as int].1@ == f.1);
            }
            if chars_eq(nc.as_slice(), prepare_pat.as_slice()) {
                self_set_prepare(&mut pkg, funcs[i].1.clone());
            } else if chars_eq(nc.as_slice(), build_pat.as_slice()) {
                self_set_build(&mut pkg, funcs[i].1.clone());
            } else if chars_eq(nc.as_slice(), check_pat.as_slice()) {
                self_set_check(&mut pkg, funcs[i].1.clone());
            } else if chars_eq(nc.as_slice(), package_pat.as_slice()) {
                self_set_package(&mut pkg, funcs[i].1.clone());
            } else if crate::text::starts_with_chars(nc.as_slice(), split_pat.as_slice()) {
                let ncn: usize = nc.len();
                let mut suffix: Vec<char> = Vec::new();
                suffix.extend_from_slice(&nc.as_slice()[split_pat.len()..ncn]);
                proof {
                    assert(suffix@ =~= f.0.subrange("package_"@.len() as int, f.0.len() as int));
                }
                pkg.package_funcs.insert(chars_to_string(suffix.as_slice()), funcs[i].1.clone());
            } else {
                let mut keyc = Vec::new();
                keyc.extend_from_slice(func_pat.as_slice());
                keyc.extend_from_slice(nc.as_slice());
                proof {
                    assert(keyc@ =~= "func_"@ + f.0);
                }
                pkg.raw_variables.insert(chars_to_string(keyc.as_slice()), funcs[i].1.clone());
            }
            i = i + 1;
            proof {
                lemma_df_fold_snoc(df_init(), fdv.take(i - 1), f);
                assert(fdv.take(i as int) =~= fdv.take(i - 1).push(f));
                let st1 = df_fold(df_init(), fdv.take(i as int));
                assert(st1 == df_step(st0, f));
                if !(f.0 == "prepare"@) && !(f.0 == "build"@) && !(f.0 == "check"@) && !(f.0
                    == "package"@) && !crate::text::starts_with_spec(f.0, "package_"@) {
                    assert(pkg.raw_variables@ =~= vars0 + st1.5);
                }
            }
        }
        proof {
            assert(fdv.take(nf as int) =~= fdv);
        }
        pkg.populate_fields();
        proof {
            assert(pkg.raw_variables@ == raw_map_of(content@));
        }
        if pkg.pkgname.as_str().unicode_len() == 0 || pkg.pkgver.as_str().unicode_len() == 0 {
            return Err(RookError::Parse);
        }
        Ok(pkg)
    }
}

fn self_set_prepare(pkg: &mut Pkgbuild, body: String)
    ensures
        *final(pkg) == (Pkgbuild { prepare_func: Some(body), ..*old(pkg) }),
{
    pkg.prepare_func = Some(body);
}

fn self_set_build(pkg: &mut Pkgbuild, body: String)
    ensures
        *final(pkg) == (Pkgbuild { build_func: Some(body), ..*old(pkg) }),
{
    pkg.build_func = Some(body);
}

fn self_set_check(pkg: &mut Pkgbuild, body: String)
    ensures
        *final(pkg) == (Pkgbuild { check_func: Some(body), ..*old(pkg) }),
{
    pkg.check_func = Some(body);
}

fn self_set_package(pkg: &mut Pkgbuild, body: String)
    ensures
        *final(pkg) == (Pkgbuild { package_func: Some(body), ..*old(pkg) }),
{
    pkg.package_func = Some(body);
}

/// The build-variable expansion: `${pkgname}`-style references replaced by
/// the recipe's values, then `$srcdir` and `$pkgdir` replaced by the
/// reserved build-environment names.
pub open spec fn expand_spec(
    s: Seq<char>,
    name: Seq<char>,
    ver: Seq<char>,
    rel: Seq<char>,
) -> Seq<char> {
    let r1 = crate::text::replace_spec(s, "${pkgname}"@, name);
    let r2 = crate::text::replace_spec(r1, "$pkgname"@, name);
    let r3 = crate::text::replace_spec(r2, "${pkgbase}"@, name);
    let r4 = crate::text::replace_spec(r3, "$pkgbase"@, name);
    let r5 = crate::text::replace_spec(r4, "${pkgver}"@, ver);
    let r6 = crate::text::replace_spec(r5, "$pkgver"@, ver);
    let r7 = crate::text::replace_spec(r6, "${pkgrel}"@, rel);
    let r8 = crate::text::replace_spec(r7, "$pkgrel"@, rel);
    let r9 = crate::text::replace_spec(r8, "$srcdir"@, "$ROOKPKG_BUILD"@);
    let r10 = crate::text::replace_spec(r9, "${srcdir}"@, "$ROOKPKG_BUILD"@);
    let r11 = crate::text::replace_spec(r10, "$pkgdir"@, "$ROOKPKG_DESTDIR"@);
    crate::text::replace_spec(r11, "${pkgdir}"@, "$ROOKPKG_DESTDIR"@)
}

/// The full `epoch:version-release` string.
pub open spec fn full_version_spec(p: Pkgbuild) -> Seq<char> {
    match p.epoch {
        Some(e) => e@ + seq![':'] + p.pkgver@ + seq!['-'] + p.pkgrel@,
        None => p.pkgver@ + seq!['-'] + p.pkgrel@,
    }
}

/// The `epoch:version` string, without the release.
pub open spec fn version_spec(p: Pkgbuild) -> Seq<char> {
    match p.epoch {
        Some(e) => e@ + seq![':'] + p.pkgver@,
        None => p.pkgver@,
    }
}

/// The release number: `pkgrel` as an integer, `1` when it is not one.
pub open spec fn release_spec(p: Pkgbuild) -> u32 {
    match parse_u32_spec(p.pkgrel@) {
        Some(n) => n,
        None => 1u32,
    }
}

/// The checksums to use: the first non-empty list in the priority order
/// sha256, sha512, b2, md5.
pub open spec fn checksums_spec(p: Pkgbuild) -> Seq<Seq<char>> {
    if p.sha256sums@.len() > 0 {
        p.sha256sums.deep_view()
    } else if p.sha512sums@.len() > 0 {
        p.sha512sums.deep_view()
    } else if p.b2sums@.len() > 0 {
        p.b2sums.deep_view()
    } else {
        p.md5sums.deep_view()
    }
}

fn clone_strings(v: &Vec<String>) -> (r: Vec<String>)
    ensures
        r@ == v@,
        r.deep_view() == v.deep_view(),
{
    let n: usize = v.len();
    let mut r: Vec<String> = Vec::new();
    let mut i: usize = 0;
    while i < n
        invariant
            n == v@.len(),
            i <= n,
            r@ == v@.take(i as int),
        decreases n - i,
    {
        r.push(v[i].clone());
        i = i + 1;
        proof {
            assert(v@.take(i as int) =~= v@.take(i - 1).push(v@[i - 1]));
        }
    }
    proof {
        assert(v@.take(n as int) =~= v@);
    }
    r
}

fn strings_to_lines(v: &Vec<String>) -> (r: Vec<Vec<char>>)
    ensures
        r.deep_view() == v.deep_view(),
{
    let n: usize = v.len();
    let mut r: Vec<Vec<char>> = Vec::new();
    let mut i: usize = 0;
    while i < n
        invariant
            n == v@.len(),
            i <= n,
            r.deep_view() =~~= v.deep_view().take(i as int),
        decreases n - i,
    {
        let ghost rv0 = r@;
        let ghost rdv0 = r.deep_view();
        r.push(str_to_chars(v[i].as_str()));
        i = i + 1;
        proof {
            let dv = v.deep_view();
            assert(rdv0 == dv.take(i - 1));
            assert(rdv0.len() == i - 1);
            assert(rv0.len() == i - 1);
            assert(r@.len() == i);
            assert forall|k: int| 0 <= k < i implies r.deep_view()[k] == dv.take(i as int)[k] by {
                assert(r.deep_view()[k] == r@[k]@);
                if k < i - 1 {
                    assert(r@[k] == rv0[k]);
                    assert(rdv0[k] == rv0[k]@);
                    assert(rdv0[k] == dv.take(i - 1)[k]);
                } else {
                    assert(r@[k]@ == v@[k]@);
                }
            }
            assert(r.deep_view() =~~= dv.take(i as int));
        }
    }
    proof {
        assert(v.deep_view().take(n as int) =~= v.deep_view());
    }
    r
}

impl Pkgbuild {
    /// Expands the recipe's build variables in a string.
    pub fn expand_variables(&self, input: &str) -> (r: String)
        ensures
            r@ == expand_spec(input@, self.pkgname@, self.pkgver@, self.pkgrel@),
    {
        proof {
            reveal_strlit("${pkgname}");
            reveal_strlit("$pkgname");
            reveal_strlit("${pkgbase}");
            reveal_strlit("$pkgbase");
            reveal_strlit("${pkgver}");
            reveal_strlit("$pkgver");
            reveal_strlit("${pkgrel}");
            reveal_strlit("$pkgrel");
            reveal_strlit("$srcdir");
            reveal_strlit("${srcdir}");
            reveal_strlit("$pkgdir");
            reveal_strlit("${pkgdir}");
        }
        let name = str_to_chars(self.pkgname.as_str());
        let ver = str_to_chars(self.pkgver.as_str());
        let rel = str_to_chars(self.pkgrel.as_str());
        let build_dir = str_to_chars("$ROOKPKG_BUILD");
        let dest_dir = str_to_chars("$ROOKPKG_DESTDIR");
        let s = str_to_chars(input);
        let p1 = str_to_chars("${pkgname}");
        let r1 = crate::text::replace_all(s.as_slice(), p1.as_slice(), name.as_slice());
        let p2 = str_to_chars("$pkgname");
        let r2 = crate::text::replace_all(r1.as_slice(), p2.as_slice(), name.as_slice());
        let p3 = str_to_chars("${pkgbase}");
        let r3 = crate::text::replace_all(r2.as_slice(), p3.as_slice(), name.as_slice());
        let p4 = str_to_chars("$pkgbase");
        let r4 = crate::text::replace_all(r3.as_slice(), p4.as_slice(), name.as_slice());
        let p5 = str_to_chars("${pkgver}");
        let r5 = crate::text::replace_all(r4.as_slice(), p5.as_slice(), ver.as_slice());
        let p6 = str_to_chars("$pkgver");
        let r6 = crate::text::replace_all(r5.as_slice(), p6.as_slice(), ver.as_slice());
        let p7 = str_to_chars("${pkgrel}");
        let r7 = crate::text::replace_all(r6.as_slice(), p7.as_slice(), rel.as_slice());
        let p8 = str_to_chars("$pkgrel");
        let r8 = crate::text::replace_all(r7.as_slice(), p8.as_slice(), rel.as_slice());
        let p9 = str_to_chars("$srcdir");
        let r9 = crate::text::replace_all(r8.as_slice(), p9.as_slice(), build_dir.as_slice());
        let p10 = str_to_chars("${srcdir}");
        let r10 = crate::text::replace_all(r9.as_slice(), p10.as_slice(), build_dir.as_slice());
        let p11 = str_to_chars("$pkgdir");
        let r11 = crate::text::replace_all(r10.as_slice(), p11.as_slice(), dest_dir.as_slice());
        let p12 = str_to_chars("${pkgdir}");
        let r12 = crate::text::replace_all(r11.as_slice(), p12.as_slice(), dest_dir.as_slice());
        chars_to_string(r12.as_slice())
    }

    /// The full `epoch:version-release` string.
    pub fn full_version(&self) -> (r: String)
        ensures
            r@ == full_version_spec(*self),
    {
        let mut s = String::new();
        match &self.epoch {
            Some(e) => {
                s.append(e.as_str());
                crate::text::push_char(&mut s, ':');
            },
            None => {},
        }
        s.append(self.pkgver.as_str());
        crate::text::push_char(&mut s, '-');
        s.append(self.pkgrel.as_str());
        proof {
            match &self.epoch {
                Some(e) => {
                    assert(s@ =~= e@ + seq![':'] + self.pkgver@ + seq!['-'] + self.pkgrel@);
                },
                None => {
                    assert(s@ =~= self.pkgver@ + seq!['-'] + self.pkgrel@);
                },
            }
        }
        s
    }

    /// The `epoch:version` string, without the release.
    pub fn version(&self) -> (r: String)
        ensures
            r@ == version_spec(*self),
    {
        let mut s = String::new();
        match &self.epoch {
            Some(e) => {
                s.append(e.as_str());
                crate::text::push_char(&mut s, ':');
            },
            None => {},
        }
        s.append(self.pkgver.as_str());
        proof {
            match &self.epoch {
                Some(e) => {
                    assert(s@ =~= e@ + seq![':'] + self.pkgver@);
                },
                None => {
                    assert(s@ =~= self.pkgver@);
                },
            }
        }
        s
    }

    /// The release number, defaulting to one.
    pub fn release(&self) -> (r: u32)
        ensures
            r == release_spec(*self),
    {
        let rc = str_to_chars(self.pkgrel.as_str());
        match parse_u32(rc.as_slice()) {
            Some(n) => n,
            None => 1,
        }
    }

    /// The checksums to emit, preferring sha256.
    pub fn checksums(&self) -> (r: Vec<String>)
        ensures
            r.deep_view() == checksums_spec(*self),
    {
        if self.sha256sums.len() > 0 {
            clone_strings(&self.sha256sums)
        } else if self.sha512sums.len() > 0 {
            clone_strings(&self.sha512sums)
        } else if self.b2sums.len() > 0 {
            clone_strings(&self.b2sums)
        } else {
            clone_strings(&self.md5sums)
        }
    }

    /// Extracts a brace-balanced function body starting at the header line.
    pub fn extract_function_body(&self, lines: &Vec<String>, start: usize) -> (r: (String, usize))
        requires
            start < lines.deep_view().len(),
            sum_lens(lines.deep_view()) <= u64::MAX,
        ensures
            (r.0@, r.1 as int) == extract_function_body_spec(lines.deep_view(), start as int),
            r.1 < lines.deep_view().len(),
    {
        let lc = strings_to_lines(lines);
        let (body, end) = extract_function_body_chars(&lc, start);
        (chars_to_string(body.as_slice()), end)
    }
}

/// Build-variable expansion commutes with concatenation when no
/// substitution can straddle the boundary: every reference begins with
/// `$`, so a left part free of `$` passes through unchanged and the right
/// part expands on its own.
pub proof fn lemma_expand_concat(a: Seq<char>, b: Seq<char>, name: Seq<char>, ver: Seq<char>, rel: Seq<char>)
    requires
        !a.contains('$'),
    ensures
        expand_spec(a + b, name, ver, rel) == expand_spec(a, name, ver, rel) + expand_spec(
            b,
            name,
            ver,
            rel,
        ),
        expand_spec(a, name, ver, rel) == a,
{
    reveal_strlit("${pkgname}");
    reveal_strlit("$pkgname");
    reveal_strlit("${pkgbase}");
    reveal_strlit("$pkgbase");
    reveal_strlit("${pkgver}");
    reveal_strlit("$pkgver");
    reveal_strlit("${pkgrel}");
    reveal_strlit("$pkgrel");
    reveal_strlit("$srcdir");
    reveal_strlit("${srcdir}");
    reveal_strlit("$pkgdir");
    reveal_strlit("${pkgdir}");
    let bd = "$ROOKPKG_BUILD"@;
    let dd = "$ROOKPKG_DESTDIR"@;
    crate::text::lemma_replace_concat_prefix_free(a, b, "${pkgname}"@, name);
    crate::text::lemma_find_none_no_first_char(a, "${pkgname}"@);
    let b1 = crate::text::replace_spec(b, "${pkgname}"@, name);
    crate::text::lemma_replace_concat_prefix_free(a, b1, "$pkgname"@, name);
    crate::text::lemma_find_none_no_first_char(a, "$pkgname"@);
    let b2 = crate::text::replace_spec(b1, "$pkgname"@, name);
    crate::text::lemma_replace_concat_prefix_free(a, b2, "${pkgbase}"@, name);
    crate::text::lemma_find_none_no_first_char(a, "${pkgbase}"@);
    let b3 = crate::text::replace_spec(b2, "${pkgbase}"@, name);
    crate::text::lemma_replace_concat_prefix_free(a, b3, "$pkgbase"@, name);
    crate::text::lemma_find_none_no_first_char(a, "$pkgbase"@);
    let b4 = crate::text::replace_spec(b3, "$pkgbase"@, name);
    crate::text::lemma_replace_concat_prefix_free(a, b4, "${pkgver}"@, ver);
    crate::text::lemma_find_none_no_first_char(a, "${pkgver}"@);
    let b5 = crate::text::replace_spec(b4, "${pkgver}"@, ver);
    crate::text::lemma_replace_concat_prefix_free(a, b5, "$pkgver"@, ver);
    crate::text::lemma_find_none_no_first_char(a, "$pkgver"@);
    let b6 = crate::text::replace_spec(b5, "$pkgver"@, ver);
    crate::text::lemma_replace_concat_prefix_free(a, b6, "${pkgrel}"@, rel);
    crate::text::lemma_find_none_no_first_char(a, "${pkgrel}"@);
    let b7 = crate::text::replace_spec(b6, "${pkgrel}"@, rel);
    crate::text::lemma_replace_concat_prefix_free(a, b7, "$pkgrel"@, rel);
    crate::text::lemma_find_none_no_first_char(a, "$pkgrel"@);
    let b8 = crate::text::replace_spec(b7, "$pkgrel"@, rel);
    crate::text::lemma_replace_concat_prefix_free(a, b8, "$srcdir"@, bd);
    crate::text::lemma_find_none_no_first_char(a, "$srcdir"@);
    let b9 = crate::text::replace_spec(b8, "$srcdir"@, bd);
    crate::text::lemma_replace_concat_prefix_free(a, b9, "${srcdir}"@, bd);
    crate::text::lemma_find_none_no_first_char(a, "${srcdir}"@);
    let b10 = crate::text::replace_spec(b9, "${srcdir}"@, bd);
    crate::text::lemma_replace_concat_prefix_free(a, b10, "$pkgdir"@, dd);
    crate::text::lemma_find_none_no_first_char(a, "$pkgdir"@);
    let b11 = crate::text::replace_spec(b10, "$pkgdir"@, dd);
    crate::text::lemma_replace_concat_prefix_free(a, b11, "${pkgdir}"@, dd);
    crate::text::lemma_find_none_no_first_char(a, "${pkgdir}"@);
}

} // verus!
