//! Shortcut discovery over a modeled directory tree.
//!
//! The platform layer walks the real filesystem and hands the library a
//! [`FsEntry`] tree holding, for each shortcut-like file, the plain
//! values the resolver reads: the base name, the extension, the
//! resolved link target of a shortcut link, and the raw text of an
//! internet shortcut. Everything after that point — the skip-list, the
//! extension dispatch, the `URL` key extraction, categorization and
//! set-union aggregation — is verified here.

use vstd::prelude::*;
use vstd::string::StringExecFns;
use crate::app_info::{AppInfo, AppInfoV};
use crate::category::{determine_category, spec_category, Category};
use crate::text::{chars_of, lit_eq, lower, starts_with_seq, string_of, to_lower};

verus! {

/// The per-user shortcut root, under the roaming profile directory:
/// the tree the filesystem watcher observes.
pub fn start_menu_path(appdata: &str) -> (r: String)
    ensures
        r@ == appdata@ + "\\Microsoft\\Windows\\Start Menu"@,
{
    let mut s = String::from_str(appdata);
    s.append("\\Microsoft\\Windows\\Start Menu");
    s
}

/// A scan root: the Programs directory under a profile directory (the
/// machine-wide one under ProgramData, the per-user one under APPDATA).
pub fn start_menu_programs_path(base: &str) -> (r: String)
    ensures
        r@ == base@ + "\\Microsoft\\Windows\\Start Menu\\Programs"@,
{
    let mut s = String::from_str(base);
    s.append("\\Microsoft\\Windows\\Start Menu\\Programs");
    s
}

/// Index of the first NUL in a UTF-16 buffer, or its length if it has
/// none.
pub open spec fn first_nul16(s: Seq<u16>) -> nat
    decreases s.len(),
{
    if s.len() == 0 {
        0
    } else if s[0] == 0 {
        0
    } else {
        (1 + first_nul16(s.drop_first())) as nat
    }
}

proof fn lemma_first_nul16_at(s: Seq<u16>, k: int)
    requires
        0 <= k <= s.len(),
        forall|j: int| 0 <= j < k ==> s[j] != 0,
        k < s.len() ==> s[k] == 0,
    ensures
        first_nul16(s) == k,
    decreases k,
{
    if k == 0 {
    } else {
        let t = s.drop_first();
        assert(forall|j: int| 0 <= j < k - 1 ==> t[j] != 0);
        lemma_first_nul16_at(t, k - 1);
    }
}

/// The platform's link resolution fills a fixed UTF-16 buffer and
/// terminates the target path with a NUL: the meaningful part is the
/// prefix before the first NUL — the whole buffer if it has none.
pub fn utf16_prefix_to_nul(buf: &Vec<u16>) -> (r: Vec<u16>)
    ensures
        r@ == buf@.subrange(0, first_nul16(buf@) as int),
{
    let mut n: usize = 0;
    while n < buf.len() && buf[n] != 0
        invariant
            n <= buf@.len(),
            forall|j: int| 0 <= j < n ==> buf@[j] != 0,
        decreases buf.len() - n,
    {
        n = n + 1;
    }
    proof {
        lemma_first_nul16_at(buf@, n as int);
    }
    let mut r: Vec<u16> = Vec::new();
    let mut i: usize = 0;
    while i < n
        invariant
            i <= n <= buf@.len(),
            r@.len() == i,
            forall|j: int| 0 <= j < i ==> r@[j] == buf@[j],
        decreases n - i,
    {
        r.push(buf[i]);
        i = i + 1;
    }
    proof {
        assert(r@ =~= buf@.subrange(0, n as int));
    }
    r
}

/// One node of the modeled directory tree.
pub enum FsEntry {
    /// A subdirectory with its base name and its entries.
    Dir { name: String, entries: Vec<FsEntry> },
    /// A shortcut-like file: `stem` is the file name with the extension
    /// stripped; `link_target` is the resolved absolute target of a
    /// shortcut link, if resolution succeeded; `content` is the text of
    /// an internet-shortcut file, if it could be read.
    File { stem: String, ext: String, link_target: Option<String>, content: Option<String> },
}

/// A directory name (lowercased) that the scan never descends into:
/// the fixed list of platform system directories, matched exactly.
pub open spec fn is_skipped(name: Seq<char>) -> bool {
    let n = lower(name);
    ||| n == "windows"@
    ||| n == "system32"@
    ||| n == "systemapps"@
    ||| n == "syswow64"@
    ||| n == "winsxs"@
    ||| n == "assembly"@
    ||| n == "microsoft.net"@
}

/// Exact, case-insensitive membership in the skip-list: `System32` is
/// skipped, while `System32Extra` or `My System32 Tools` are not.
pub fn dir_is_skipped(name: &str) -> (r: bool)
    ensures
        r == is_skipped(name@),
{
    let cs = chars_of(name);
    let low = to_lower(&cs);
    lit_eq(&low, "windows") || lit_eq(&low, "system32") || lit_eq(&low, "systemapps")
        || lit_eq(&low, "syswow64") || lit_eq(&low, "winsxs") || lit_eq(&low, "assembly")
        || lit_eq(&low, "microsoft.net")
}

/// Unicode whitespace — the `White_Space` set, as `str::trim`
/// recognizes it — trimmed from the value of a `URL` line.
pub open spec fn is_ws(c: char) -> bool {
    let u = c as u32;
    ||| (9 <= u && u <= 13)
    ||| u == 32
    ||| u == 0x85
    ||| u == 0xA0
    ||| u == 0x1680
    ||| (0x2000 <= u && u <= 0x200A)
    ||| u == 0x2028
    ||| u == 0x2029
    ||| u == 0x202F
    ||| u == 0x205F
    ||| u == 0x3000
}

pub fn is_ws_exec(c: char) -> (r: bool)
    ensures
        r == is_ws(c),
{
    let u = c as u32;
    (9 <= u && u <= 13) || u == 32 || u == 0x85 || u == 0xA0 || u == 0x1680 || (0x2000 <= u && u
        <= 0x200A) || u == 0x2028 || u == 0x2029 || u == 0x202F || u == 0x205F || u == 0x3000
}

pub open spec fn trim_start(s: Seq<char>) -> Seq<char>
    decreases s.len(),
{
    if s.len() > 0 && is_ws(s[0]) {
        trim_start(s.drop_first())
    } else {
        s
    }
}

pub open spec fn trim_end(s: Seq<char>) -> Seq<char>
    decreases s.len(),
{
    if s.len() > 0 && is_ws(s.last()) {
        trim_end(s.drop_last())
    } else {
        s
    }
}

/// The sequence with leading and trailing whitespace removed.
pub open spec fn trim(s: Seq<char>) -> Seq<char> {
    trim_end(trim_start(s))
}

proof fn lemma_trim_start_at(s: Seq<char>, a: int)
    requires
        0 <= a <= s.len(),
        forall|j: int| 0 <= j < a ==> is_ws(s[j]),
        a < s.len() ==> !is_ws(s[a]),
    ensures
        trim_start(s) == s.subrange(a, s.len() as int),
    decreases a,
{
    if a == 0 {
        assert(s.subrange(0, s.len() as int) =~= s);
    } else {
        let t = s.subrange(1, s.len() as int);
        assert(s.drop_first() =~= t);
        lemma_trim_start_at(t, a - 1);
        assert(t.subrange(a - 1, t.len() as int) =~= s.subrange(a, s.len() as int));
    }
}

proof fn lemma_trim_end_at(s: Seq<char>, b: int)
    requires
        0 <= b <= s.len(),
        forall|j: int| b <= j < s.len() ==> is_ws(s[j]),
        b > 0 ==> !is_ws(s[b - 1]),
    ensures
        trim_end(s) == s.subrange(0, b),
    decreases s.len(),
{
    if b == s.len() {
        if s.len() > 0 {
            assert(!is_ws(s.last()));
        }
        assert(s.subrange(0, s.len() as int) =~= s);
    } else {
        assert(is_ws(s.last()));
        let t = s.drop_last();
        lemma_trim_end_at(t, b);
        assert(t.subrange(0, b) =~= s.subrange(0, b));
    }
}

/// Copy of `v[i..j]`.
pub fn sub_vec(v: &Vec<char>, i: usize, j: usize) -> (r: Vec<char>)
    requires
        i <= j <= v@.len(),
    ensures
        r@ == v@.subrange(i as int, j as int),
{
    let mut r: Vec<char> = Vec::new();
    let mut k: usize = i;
    while k < j
        invariant
            i <= k <= j <= v@.len(),
            r@.len() == k - i,
            forall|m: int| 0 <= m < r@.len() ==> r@[m] == v@[i + m],
        decreases j - k,
    {
        r.push(v[k]);
        k = k + 1;
    }
    proof {
        assert(r@ =~= v@.subrange(i as int, j as int));
    }
    r
}

pub fn trim_exec(v: &Vec<char>) -> (r: Vec<char>)
    ensures
        r@ == trim(v@),
{
    let mut a: usize = 0;
    while a < v.len() && is_ws_exec(v[a])
        invariant
            a <= v@.len(),
            forall|j: int| 0 <= j < a ==> is_ws(v@[j]),
        decreases v.len() - a,
    {
        a = a + 1;
    }
    let mut b: usize = v.len();
    while b > a && is_ws_exec(v[b - 1])
        invariant
            a <= b <= v@.len(),
            forall|j: int| 0 <= j < a ==> is_ws(v@[j]),
            forall|j: int| b <= j < v@.len() ==> is_ws(v@[j]),
        decreases b,
    {
        b = b - 1;
    }
    let r = sub_vec(v, a, b);
    proof {
        let s = v@;
        lemma_trim_start_at(s, a as int);
        let t = s.subrange(a as int, s.len() as int);
        lemma_trim_end_at(t, b - a);
        assert(t.subrange(0, b - a) =~= s.subrange(a as int, b as int));
    }
    r
}

/// Index of the first newline in `s`, or `s.len()` if there is none.
pub open spec fn first_nl(s: Seq<char>) -> nat
    decreases s.len(),
{
    if s.len() == 0 {
        0
    } else if s[0] == '\n' {
        0
    } else {
        (1 + first_nl(s.drop_first())) as nat
    }
}

proof fn lemma_first_nl_le(s: Seq<char>)
    ensures
        first_nl(s) <= s.len(),
        first_nl(s) < s.len() ==> s[first_nl(s) as int] == '\n',
        forall|j: int| 0 <= j < first_nl(s) ==> s[j] != '\n',
    decreases s.len(),
{
    if s.len() == 0 {
    } else if s[0] == '\n' {
    } else {
        let t = s.drop_first();
        lemma_first_nl_le(t);
        assert(forall|j: int| 1 <= j < first_nl(s) ==> s[j] == t[j - 1]);
    }
}

proof fn lemma_first_nl_at(s: Seq<char>, k: int)
    requires
        0 <= k <= s.len(),
        forall|j: int| 0 <= j < k ==> s[j] != '\n',
        k < s.len() ==> s[k] == '\n',
    ensures
        first_nl(s) == k,
    decreases k,
{
    if k == 0 {
    } else {
        let t = s.drop_first();
        assert(forall|j: int| 0 <= j < k - 1 ==> t[j] != '\n');
        lemma_first_nl_at(t, k - 1);
    }
}

/// A line with its trailing carriage return removed, as the resolver
/// sees the lines of an internet-shortcut file.
pub open spec fn strip_cr(line: Seq<char>) -> Seq<char> {
    if line.len() > 0 && line.last() == '\r' {
        line.drop_last()
    } else {
        line
    }
}

/// The value of the first line of `s` that starts with the (exact,
/// case-sensitive) key prefix `URL=`: the rest of that line, trimmed.
/// Empty if no line carries the key.
pub open spec fn extract_url(s: Seq<char>) -> Seq<char>
    decreases s.len(),
{
    let n = first_nl(s);
    let line = strip_cr(s.subrange(0, n as int));
    if starts_with_seq(line, "URL="@) {
        trim(line.subrange(4, line.len() as int))
    } else if n < s.len() {
        extract_url(s.subrange(n as int + 1, s.len() as int))
    } else {
        Seq::empty()
    }
}

pub fn extract_url_exec(content: &Vec<char>) -> (r: Vec<char>)
    ensures
        r@ == extract_url(content@),
{
    let len = content.len();
    let mut pos: usize = 0;
    proof {
        assert(content@.subrange(0, len as int) =~= content@);
    }
    loop
        invariant
            pos <= len,
            len == content@.len(),
            extract_url(content@) == extract_url(content@.subrange(pos as int, len as int)),
        decreases len - pos,
    {
        let ghost s = content@.subrange(pos as int, len as int);
        // find the end of the current line
        let mut n: usize = pos;
        while n < len && content[n] != '\n'
            invariant
                pos <= n <= len,
                len == content@.len(),
                forall|j: int| pos <= j < n ==> content@[j] != '\n',
            decreases len - n,
        {
            n = n + 1;
        }
        proof {
            assert(forall|j: int| 0 <= j < n - pos ==> s[j] != '\n');
            lemma_first_nl_at(s, n - pos);
        }
        // strip a trailing carriage return
        let mut line_end: usize = n;
        if line_end > pos && content[line_end - 1] == '\r' {
            line_end = line_end - 1;
        }
        let ghost line = strip_cr(s.subrange(0, (n - pos) as int));
        proof {
            assert(s.subrange(0, (n - pos) as int) =~= content@.subrange(pos as int, n as int));
            assert(line =~= content@.subrange(pos as int, line_end as int));
        }
        // does the line start with "URL="?
        let is_url = line_end - pos >= 4 && content[pos] == 'U' && content[pos + 1] == 'R'
            && content[pos + 2] == 'L' && content[pos + 3] == '=';
        proof {
            reveal_strlit("URL=");
            if is_url {
                assert(line.subrange(0, 4) =~= "URL="@);
                assert(starts_with_seq(line, "URL="@));
            } else {
                if starts_with_seq(line, "URL="@) {
                    assert(line[0] == 'U' && line[1] == 'R' && line[2] == 'L' && line[3] == '=')
                        by {
                        assert(line.subrange(0, 4)[0] == line[0]);
                        assert(line.subrange(0, 4)[1] == line[1]);
                        assert(line.subrange(0, 4)[2] == line[2]);
                        assert(line.subrange(0, 4)[3] == line[3]);
                    }
                    assert(false);
                }
            }
        }
        if is_url {
            let piece = sub_vec(content, pos + 4, line_end);
            let r = trim_exec(&piece);
            proof {
                assert(piece@ =~= line.subrange(4, line.len() as int));
            }
            return r;
        }
        if n == len {
            proof {
                assert(extract_url(s) == Seq::<char>::empty());
            }
            return Vec::new();
        }
        proof {
            assert(extract_url(s) == extract_url(s.subrange((n - pos + 1) as int, s.len() as int)));
            assert(s.subrange((n - pos + 1) as int, s.len() as int) =~= content@.subrange(
                (n + 1) as int,
                len as int,
            ));
        }
        pos = n + 1;
    }
}

pub open spec fn opt_view(o: Option<String>) -> Option<Seq<char>> {
    match o {
        Some(s) => Some(s@),
        None => None,
    }
}

pub open spec fn opt_app_view(o: Option<AppInfo>) -> Option<AppInfoV> {
    match o {
        Some(a) => Some(a@),
        None => None,
    }
}

/// What one shortcut-like file resolves to. A shortcut link resolves to
/// its target (categorized by the target path) when resolution
/// succeeded; an internet shortcut resolves to its `URL` value, always
/// in category `Web`; anything else — an unrecognized extension, a
/// failed resolution, an unreadable or URL-less file — is dropped.
/// `icon` is never filled during a scan.
pub open spec fn spec_resolve(
    stem: Seq<char>,
    ext: Seq<char>,
    link_target: Option<Seq<char>>,
    content: Option<Seq<char>>,
) -> Option<AppInfoV> {
    if lower(ext) == "lnk"@ {
        match link_target {
            Some(t) => Some(
                AppInfoV { name: stem, path: t, category: spec_category(t), icon: None },
            ),
            None => None,
        }
    } else if lower(ext) == "url"@ {
        match content {
            Some(c) => {
                let u = extract_url(c);
                if u.len() > 0 {
                    Some(AppInfoV { name: stem, path: u, category: Category::Web, icon: None })
                } else {
                    None
                }
            },
            None => None,
        }
    } else {
        None
    }
}

pub fn resolve_file(
    stem: &String,
    ext: &String,
    link_target: &Option<String>,
    content: &Option<String>,
) -> (r: Option<AppInfo>)
    ensures
        opt_app_view(r) == spec_resolve(stem@, ext@, opt_view(*link_target), opt_view(*content)),
{
    let cs = chars_of(ext.as_str());
    let el = to_lower(&cs);
    if lit_eq(&el, "lnk") {
        match link_target {
            Some(t) => {
                let a = AppInfo {
                    name: stem.clone(),
                    path: t.clone(),
                    category: determine_category(t.as_str()),
                    icon: None,
                };
                proof {
                    assert(a@ =~= AppInfoV {
                        name: stem@,
                        path: t@,
                        category: spec_category(t@),
                        icon: None,
                    });
                }
                Some(a)
            },
            None => None,
        }
    } else if lit_eq(&el, "url") {
        match content {
            Some(c) => {
                let cc = chars_of(c.as_str());
                let u = extract_url_exec(&cc);
                if u.len() > 0 {
                    let a = AppInfo {
                        name: stem.clone(),
                        path: string_of(&u),
                        category: Category::Web,
                        icon: None,
                    };
                    proof {
                        assert(a@ =~= AppInfoV {
                            name: stem@,
                            path: extract_url(c@),
                            category: Category::Web,
                            icon: None,
                        });
                    }
                    Some(a)
                } else {
                    None
                }
            },
            None => None,
        }
    } else {
        None
    }
}

/// The records a scan of one tree node yields, in traversal order.
pub open spec fn spec_scan_entry(e: FsEntry) -> Seq<AppInfoV>
    decreases e, 0int,
{
    match e {
        FsEntry::File { stem, ext, link_target, content } => {
            match spec_resolve(stem@, ext@, opt_view(link_target), opt_view(content)) {
                Some(a) => seq![a],
                None => Seq::empty(),
            }
        },
        FsEntry::Dir { name, entries } => spec_scan_entries(entries@),
    }
}

/// The records a child entry yields: a subdirectory on the skip-list
/// yields nothing and is not descended into.
pub open spec fn spec_scan_child(e: FsEntry) -> Seq<AppInfoV>
    decreases e, 1int,
{
    match e {
        FsEntry::Dir { name, entries } => {
            if is_skipped(name@) {
                Seq::empty()
            } else {
                spec_scan_entry(e)
            }
        },
        FsEntry::File { .. } => spec_scan_entry(e),
    }
}

pub open spec fn spec_scan_entries(es: Seq<FsEntry>) -> Seq<AppInfoV>
    decreases es, 2int,
{
    if es.len() == 0 {
        Seq::empty()
    } else {
        spec_scan_child(es[0]) + spec_scan_entries(es.subrange(1, es.len() as int))
    }
}

/// The mathematical values of a vector of records.
pub open spec fn views(s: Seq<AppInfo>) -> Seq<AppInfoV> {
    s.map_values(|a: AppInfo| a@)
}

/// Exhaustive scan of one tree: every recognized shortcut under the
/// root is resolved, except below skip-listed subdirectories; the
/// result is exactly what the resolver yields, in traversal order.
pub fn scan_entry(e: &FsEntry) -> (r: Vec<AppInfo>)
    ensures
        views(r@) == spec_scan_entry(*e),
    decreases *e, 0int,
{
    match e {
        FsEntry::File { stem, ext, link_target, content } => {
            let mut r: Vec<AppInfo> = Vec::new();
            match resolve_file(stem, ext, link_target, content) {
                Some(a) => {
                    r.push(a);
                },
                None => {},
            }
            proof {
                assert(views(r@) =~= spec_scan_entry(*e));
            }
            r
        },
        FsEntry::Dir { name: _, entries } => {
            proof {
                assert(entries@.subrange(0, entries@.len() as int) =~= entries@);
            }
            let r = scan_entries(entries, 0);
            r
        },
    }
}

fn scan_child(e: &FsEntry) -> (r: Vec<AppInfo>)
    ensures
        views(r@) == spec_scan_child(*e),
    decreases *e, 1int,
{
    match e {
        FsEntry::Dir { name, entries: _ } => {
            if dir_is_skipped(name.as_str()) {
                let r: Vec<AppInfo> = Vec::new();
                proof {
                    assert(views(r@) =~= Seq::<AppInfoV>::empty());
                }
                r
            } else {
                scan_entry(e)
            }
        },
        FsEntry::File { .. } => scan_entry(e),
    }
}

fn scan_entries(es: &Vec<FsEntry>, i: usize) -> (r: Vec<AppInfo>)
    requires
        i <= es@.len(),
    ensures
        views(r@) == spec_scan_entries(es@.subrange(i as int, es@.len() as int)),
    decreases es@.subrange(i as int, es@.len() as int), 2int,
{
    let ghost s = es@.subrange(i as int, es@.len() as int);
    if i == es.len() {
        let r: Vec<AppInfo> = Vec::new();
        proof {
            assert(views(r@) =~= Seq::<AppInfoV>::empty());
        }
        return r;
    }
    proof {
        assert(s[0] == es@[i as int]);
    }
    let mut r = scan_child(&es[i]);
    proof {
        assert(decreases_to!(s => s.subrange(1, s.len() as int)));
        assert(s.subrange(1, s.len() as int) =~= es@.subrange(i as int + 1, es@.len() as int));
    }
    let mut rest = scan_entries(es, i + 1);
    r.append(&mut rest);
    proof {
        assert(views(r@) =~= spec_scan_child(s[0]) + spec_scan_entries(
            s.subrange(1, s.len() as int),
        ));
    }
    r
}

/// The membership a vector of records represents.
pub open spec fn view_set(s: Seq<AppInfo>) -> Set<AppInfoV> {
    views(s).to_set()
}

/// No two entries of the vector hold the same record.
pub open spec fn no_dup_views(s: Seq<AppInfo>) -> bool {
    forall|i: int, j: int| 0 <= i < j < s.len() ==> s[i]@ != s[j]@
}

pub fn contains_app(apps: &Vec<AppInfo>, a: &AppInfo) -> (r: bool)
    ensures
        r == views(apps@).contains(a@),
{
    let mut i: usize = 0;
    while i < apps.len()
        invariant
            i <= apps@.len(),
            forall|j: int| 0 <= j < i ==> apps@[j]@ != a@,
        decreases apps.len() - i,
    {
        if apps[i] == *a {
            proof {
                assert(views(apps@)[i as int] == a@);
            }
            return true;
        }
        i = i + 1;
    }
    proof {
        assert(forall|j: int| 0 <= j < views(apps@).len() ==> views(apps@)[j] != a@);
    }
    false
}

proof fn lemma_to_set_push(s: Seq<AppInfoV>, a: AppInfoV)
    ensures
        s.push(a).to_set() == s.to_set().insert(a),
{
    let p = s.push(a);
    assert forall|x: AppInfoV| p.to_set().contains(x) implies s.to_set().insert(a).contains(x) by {
        let i = choose|i: int| 0 <= i < p.len() && p[i] == x;
        if i < s.len() {
            assert(s[i] == x);
            assert(s.contains(x));
        } else {
            assert(x == a);
        }
    }
    assert forall|x: AppInfoV| s.to_set().insert(a).contains(x) implies p.to_set().contains(x) by {
        if x == a {
            assert(p[s.len() as int] == x);
            assert(p.contains(x));
        } else {
            let i = choose|i: int| 0 <= i < s.len() && s[i] == x;
            assert(p[i] == x);
            assert(p.contains(x));
        }
    }
    assert(p.to_set() =~= s.to_set().insert(a));
}

/// Insert one record into the aggregation set: a record already present
/// is dropped, so the vector keeps exactly one entry per record.
pub fn add_app(apps: &mut Vec<AppInfo>, a: AppInfo)
    ensures
        view_set(final(apps)@) == view_set(old(apps)@).insert(a@),
        no_dup_views(old(apps)@) ==> no_dup_views(final(apps)@),
{
    let dup = contains_app(apps, &a);
    let ghost olds = apps@;
    if !dup {
        apps.push(a);
    }
    proof {
        if dup {
            assert(view_set(olds).contains(a@));
            assert(view_set(apps@) =~= view_set(olds).insert(a@));
        } else {
            assert(views(apps@) =~= views(olds).push(a@));
            lemma_to_set_push(views(olds), a@);
            if no_dup_views(olds) {
                assert forall|i: int, j: int| 0 <= i < j < apps@.len() implies apps@[i]@
                    != apps@[j]@ by {
                    assert(apps@[i] == olds[i]);
                    if j == olds.len() {
                        assert(apps@[j]@ == a@);
                        assert(views(olds)[i] == olds[i]@);
                        if olds[i]@ == a@ {
                            assert(views(olds).contains(a@));
                        }
                    } else {
                        assert(apps@[j] == olds[j]);
                    }
                }
            }
        }
    }
}

/// Union a batch of records into the aggregation set.
pub fn union_into(apps: &mut Vec<AppInfo>, more: &Vec<AppInfo>)
    ensures
        view_set(final(apps)@) == view_set(old(apps)@) + view_set(more@),
        no_dup_views(old(apps)@) ==> no_dup_views(final(apps)@),
{
    let mut i: usize = 0;
    while i < more.len()
        invariant
            i <= more@.len(),
            view_set(apps@) == view_set(old(apps)@) + view_set(more@.subrange(0, i as int)),
            no_dup_views(old(apps)@) ==> no_dup_views(apps@),
        decreases more.len() - i,
    {
        add_app(apps, more[i].clone());
        proof {
            let pre = more@.subrange(0, i as int);
            let now = more@.subrange(0, i as int + 1);
            assert(views(now) =~= views(pre).push(more@[i as int]@)) by {
                assert(forall|j: int| 0 <= j <= i ==> now[j] == more@[j]);
            }
            lemma_to_set_push(views(pre), more@[i as int]@);
            assert(view_set(apps@) =~= view_set(old(apps)@) + view_set(now));
        }
        i = i + 1;
    }
    proof {
        assert(more@.subrange(0, more@.len() as int) =~= more@);
    }
}

/// The combined membership of scanning a list of roots.
pub open spec fn spec_scan_roots(roots: Seq<FsEntry>) -> Set<AppInfoV>
    decreases roots.len(),
{
    if roots.len() == 0 {
        Set::empty()
    } else {
        spec_scan_roots(roots.drop_last()) + spec_scan_entry(roots.last()).to_set()
    }
}

/// Scan every root and union the results: duplicates between roots (or
/// within one root) collapse, and the outcome holds exactly the records
/// the roots yield — once each.
pub fn scan_roots(roots: &Vec<FsEntry>) -> (r: Vec<AppInfo>)
    ensures
        view_set(r@) == spec_scan_roots(roots@),
        no_dup_views(r@),
{
    let mut acc: Vec<AppInfo> = Vec::new();
    proof {
        assert(view_set(acc@) =~= spec_scan_roots(roots@.subrange(0, 0)));
    }
    let mut i: usize = 0;
    while i < roots.len()
        invariant
            i <= roots@.len(),
            view_set(acc@) == spec_scan_roots(roots@.subrange(0, i as int)),
            no_dup_views(acc@),
        decreases roots.len() - i,
    {
        let found = scan_entry(&roots[i]);
        union_into(&mut acc, &found);
        proof {
            let pre = roots@.subrange(0, i as int + 1);
            assert(pre.drop_last() =~= roots@.subrange(0, i as int));
            assert(pre.last() == roots@[i as int]);
        }
        i = i + 1;
    }
    proof {
        assert(roots@.subrange(0, roots@.len() as int) =~= roots@);
    }
    acc
}

/// Scanning an unchanged tree is idempotent: two scans of equal trees
/// yield the same records, and in particular the same membership,
/// whatever order either traversal reported them in.
pub proof fn lemma_scan_idempotent(e1: FsEntry, e2: FsEntry)
    requires
        e1 == e2,
    ensures
        spec_scan_entry(e1) == spec_scan_entry(e2),
        spec_scan_entry(e1).to_set() == spec_scan_entry(e2).to_set(),
{
}

/// The tree holds a shortcut that resolves to `a`, somewhere below the
/// root but never below a skip-listed subdirectory. This predicate
/// mentions no traversal order at all.
pub open spec fn yields_app(e: FsEntry, a: AppInfoV) -> bool
    decreases e, 0int,
{
    match e {
        FsEntry::File { stem, ext, link_target, content } => spec_resolve(
            stem@,
            ext@,
            opt_view(link_target),
            opt_view(content),
        ) == Some(a),
        FsEntry::Dir { name, entries } => any_child_yields(entries@, a),
    }
}

/// Some entry of the list yields `a`.
pub open spec fn any_child_yields(es: Seq<FsEntry>, a: AppInfoV) -> bool
    decreases es, 2int,
{
    if es.len() == 0 {
        false
    } else {
        child_yields_app(es[0], a) || any_child_yields(es.subrange(1, es.len() as int), a)
    }
}

pub open spec fn child_yields_app(e: FsEntry, a: AppInfoV) -> bool
    decreases e, 1int,
{
    match e {
        FsEntry::Dir { name, entries } => !is_skipped(name@) && yields_app(e, a),
        FsEntry::File { .. } => yields_app(e, a),
    }
}

/// The declarative reading of [`any_child_yields`]: some position of
/// the list yields the record.
pub proof fn lemma_any_child_yields_iff(es: Seq<FsEntry>, a: AppInfoV)
    ensures
        any_child_yields(es, a) <==> exists|i: int|
            0 <= i < es.len() && #[trigger] child_yields_app(es[i], a),
    decreases es.len(),
{
    if es.len() == 0 {
    } else {
        let rest = es.subrange(1, es.len() as int);
        lemma_any_child_yields_iff(rest, a);
        if child_yields_app(es[0], a) {
            assert(exists|i: int| 0 <= i < es.len() && #[trigger] child_yields_app(es[i], a));
        }
        if exists|i: int| 0 <= i < rest.len() && #[trigger] child_yields_app(rest[i], a) {
            let i = choose|i: int| 0 <= i < rest.len() && #[trigger] child_yields_app(rest[i], a);
            assert(rest[i] == es[i + 1]);
            assert(child_yields_app(es[i + 1], a));
        }
        if exists|i: int| 0 <= i < es.len() && #[trigger] child_yields_app(es[i], a) {
            let i = choose|i: int| 0 <= i < es.len() && #[trigger] child_yields_app(es[i], a);
            if i > 0 {
                assert(rest[i - 1] == es[i]);
                assert(child_yields_app(rest[i - 1], a));
            }
        }
    }
}

proof fn lemma_concat_contains(x: Seq<AppInfoV>, y: Seq<AppInfoV>, a: AppInfoV)
    ensures
        (x + y).contains(a) <==> x.contains(a) || y.contains(a),
{
    if (x + y).contains(a) {
        let i = choose|i: int| 0 <= i < (x + y).len() && (x + y)[i] == a;
        if i < x.len() {
            assert(x[i] == a);
        } else {
            assert(y[i - x.len()] == a);
        }
    }
    if x.contains(a) {
        let i = choose|i: int| 0 <= i < x.len() && x[i] == a;
        assert((x + y)[i] == a);
    }
    if y.contains(a) {
        let i = choose|i: int| 0 <= i < y.len() && y[i] == a;
        assert((x + y)[x.len() + i] == a);
    }
}

/// What a scan of one tree contains is exactly what the tree yields:
/// membership in the result is a property of the tree alone, with no
/// reference to the order in which entries were visited.
pub proof fn lemma_scan_membership(e: FsEntry, a: AppInfoV)
    ensures
        spec_scan_entry(e).to_set().contains(a) <==> yields_app(e, a),
    decreases e, 0int,
{
    assert(spec_scan_entry(e).to_set().contains(a) <==> spec_scan_entry(e).contains(a));
    match e {
        FsEntry::File { stem, ext, link_target, content } => {
            let r = spec_resolve(stem@, ext@, opt_view(link_target), opt_view(content));
            assert(yields_app(e, a) <==> r == Some(a));
            match r {
                Some(b) => {
                    assert(spec_scan_entry(e) =~= seq![b]);
                    if spec_scan_entry(e).contains(a) {
                        let i = choose|i: int|
                            0 <= i < spec_scan_entry(e).len() && spec_scan_entry(e)[i] == a;
                        assert(a == b);
                    }
                    if a == b {
                        assert(spec_scan_entry(e)[0] == a);
                        assert(spec_scan_entry(e).contains(a));
                    }
                },
                None => {
                    assert(spec_scan_entry(e) =~= Seq::<AppInfoV>::empty());
                    assert(!spec_scan_entry(e).contains(a));
                },
            }
            assert(spec_scan_entry(e).to_set().contains(a) <==> yields_app(e, a));
        },
        FsEntry::Dir { name, entries } => {
            lemma_scan_entries_membership(entries@, a);
        },
    }
}

proof fn lemma_scan_child_membership(e: FsEntry, a: AppInfoV)
    ensures
        spec_scan_child(e).to_set().contains(a) <==> child_yields_app(e, a),
    decreases e, 1int,
{
    match e {
        FsEntry::Dir { name, entries } => {
            if is_skipped(name@) {
                assert(spec_scan_child(e).len() == 0);
            } else {
                lemma_scan_membership(e, a);
            }
        },
        FsEntry::File { .. } => {
            lemma_scan_membership(e, a);
        },
    }
}

proof fn lemma_scan_entries_membership(es: Seq<FsEntry>, a: AppInfoV)
    ensures
        spec_scan_entries(es).to_set().contains(a) <==> any_child_yields(es, a),
    decreases es, 2int,
{
    assert(spec_scan_entries(es).to_set().contains(a) <==> spec_scan_entries(es).contains(a));
    if es.len() == 0 {
        assert(spec_scan_entries(es).len() == 0);
    } else {
        let rest = es.subrange(1, es.len() as int);
        lemma_scan_child_membership(es[0], a);
        lemma_scan_entries_membership(rest, a);
        lemma_concat_contains(spec_scan_child(es[0]), spec_scan_entries(rest), a);
        assert(spec_scan_child(es[0]).to_set().contains(a) <==> spec_scan_child(es[0]).contains(
            a,
        ));
        assert(spec_scan_entries(rest).to_set().contains(a) <==> spec_scan_entries(
            rest,
        ).contains(a));
    }
}

/// The combined catalog of a list of scan roots holds a record exactly
/// when some root yields it: what two scans of unchanged roots serve
/// is the same set, however either traversal ordered its work.
pub proof fn lemma_scan_roots_membership(roots: Seq<FsEntry>, a: AppInfoV)
    ensures
        spec_scan_roots(roots).contains(a) <==> exists|i: int|
            0 <= i < roots.len() && #[trigger] yields_app(roots[i], a),
    decreases roots.len(),
{
    if roots.len() == 0 {
    } else {
        let pre = roots.drop_last();
        lemma_scan_roots_membership(pre, a);
        lemma_scan_membership(roots.last(), a);
        if exists|i: int| 0 <= i < pre.len() && #[trigger] yields_app(pre[i], a) {
            let i = choose|i: int| 0 <= i < pre.len() && #[trigger] yields_app(pre[i], a);
            assert(yields_app(roots[i], a));
        }
        if yields_app(roots.last(), a) {
            assert(yields_app(roots[roots.len() - 1], a));
        }
        if exists|i: int| 0 <= i < roots.len() && #[trigger] yields_app(roots[i], a) {
            let i = choose|i: int| 0 <= i < roots.len() && #[trigger] yields_app(roots[i], a);
            if i < pre.len() {
                assert(pre[i] == roots[i]);
                assert(yields_app(pre[i], a));
            } else {
                assert(roots[i] == roots.last());
            }
        }
    }
}

/// Deduplication: when both roots contribute the identical record, the
/// combined catalog holds exactly one entry for it — one entry matches,
/// and any two matching positions are the same position.
pub proof fn lemma_dedup_unique(r: Seq<AppInfo>, a: AppInfoV)
    requires
        no_dup_views(r),
        view_set(r).contains(a),
    ensures
        exists|i: int| 0 <= i < r.len() && r[i]@ == a,
        forall|i: int, j: int|
            0 <= i < r.len() && 0 <= j < r.len() && r[i]@ == a && r[j]@ == a ==> i == j,
{
    let k = choose|k: int| 0 <= k < views(r).len() && views(r)[k] == a;
    assert(r[k]@ == a);
    assert(forall|i: int, j: int|
        0 <= i < r.len() && 0 <= j < r.len() && r[i]@ == a && r[j]@ == a ==> i == j) by {
        assert(forall|i: int, j: int| 0 <= i < j < r.len() ==> r[i]@ != r[j]@);
    }
}

} // verus!
