//! The on-disk catalog snapshot codec.
//!
//! The cache file holds one JSON object, `{"apps":[...],"timestamp":N}`,
//! written compactly by [`render_cache_file`] and read back by
//! [`parse_cache_file`]. Reading is permissive at the outer level: any
//! input the strict parser does not accept is reported as `None` and
//! treated by the cache as a miss, never as an error. What the writer
//! produces, the parser provably accepts and maps back to the same
//! snapshot (see [`lemma_cache_round_trip`]).

use vstd::prelude::*;
use crate::app_info::{AppInfo, AppInfoV};
use crate::cache::AppCache;
use crate::category::Category;
use crate::scanner::{opt_view, views};
use crate::text::{chars_of, lit_eq, matches_at, string_of};

verus! {

/// The lowercase hexadecimal digit of a value below 16.
pub open spec fn hex_digit(n: nat) -> char {
    if n == 0 {
        '0'
    } else if n == 1 {
        '1'
    } else if n == 2 {
        '2'
    } else if n == 3 {
        '3'
    } else if n == 4 {
        '4'
    } else if n == 5 {
        '5'
    } else if n == 6 {
        '6'
    } else if n == 7 {
        '7'
    } else if n == 8 {
        '8'
    } else if n == 9 {
        '9'
    } else if n == 10 {
        'a'
    } else if n == 11 {
        'b'
    } else if n == 12 {
        'c'
    } else if n == 13 {
        'd'
    } else if n == 14 {
        'e'
    } else {
        'f'
    }
}

pub fn hex_digit_exec(n: u8) -> (r: char)
    requires
        n < 16,
    ensures
        r == hex_digit(n as nat),
{
    match n {
        0 => '0',
        1 => '1',
        2 => '2',
        3 => '3',
        4 => '4',
        5 => '5',
        6 => '6',
        7 => '7',
        8 => '8',
        9 => '9',
        10 => 'a',
        11 => 'b',
        12 => 'c',
        13 => 'd',
        14 => 'e',
        _ => 'f',
    }
}

/// How one character is written inside a JSON string: quote and
/// backslash get a backslash escape, control characters a `\u00XX`
/// escape, everything else stands for itself.
pub open spec fn esc_char(c: char) -> Seq<char> {
    if c == '"' {
        seq!['\\', '"']
    } else if c == '\\' {
        seq!['\\', '\\']
    } else if (c as u32) < 32 {
        seq!['\\', 'u', '0', '0', hex_digit((c as u32 / 16) as nat), hex_digit(
            (c as u32 % 16) as nat,
        )]
    } else {
        seq![c]
    }
}

pub open spec fn escape(s: Seq<char>) -> Seq<char>
    decreases s.len(),
{
    if s.len() == 0 {
        Seq::empty()
    } else {
        esc_char(s[0]) + escape(s.drop_first())
    }
}

/// A JSON string literal: the escaped text between two quotes.
pub open spec fn render_str(s: Seq<char>) -> Seq<char> {
    seq!['"'] + escape(s) + seq!['"']
}

/// A decimal numeral, most significant digit first, no leading zeros.
pub open spec fn render_u64(n: nat) -> Seq<char>
    decreases n,
{
    if n < 10 {
        seq![hex_digit(n)]
    } else {
        render_u64(n / 10) + seq![hex_digit(n % 10)]
    }
}

fn push_lit(out: &mut Vec<char>, lit: &str)
    ensures
        final(out)@ == old(out)@ + lit@,
{
    let mut cs = chars_of(lit);
    out.append(&mut cs);
}

fn push_escaped(out: &mut Vec<char>, s: &Vec<char>)
    ensures
        final(out)@ == old(out)@ + escape(s@),
{
    let mut i: usize = 0;
    proof {
        assert(out@ =~= old(out)@ + escape(s@.subrange(0, 0)));
    }
    while i < s.len()
        invariant
            i <= s@.len(),
            out@ == old(out)@ + escape(s@.subrange(0, i as int)),
        decreases s.len() - i,
    {
        let ghost pre = s@.subrange(0, i as int);
        let c = s[i];
        let code: u32 = c as u32;
        if c == '"' {
            out.push('\\');
            out.push('"');
        } else if c == '\\' {
            out.push('\\');
            out.push('\\');
        } else if code < 32 {
            out.push('\\');
            out.push('u');
            out.push('0');
            out.push('0');
            out.push(hex_digit_exec((code / 16) as u8));
            out.push(hex_digit_exec((code % 16) as u8));
        } else {
            out.push(c);
        }
        proof {
            lemma_escape_snoc(s@, i as int);
            assert(old(out)@ + escape(pre) + esc_char(c) =~= old(out)@ + escape(
                s@.subrange(0, i as int + 1),
            ));
        }
        i = i + 1;
    }
    proof {
        assert(s@.subrange(0, s@.len() as int) =~= s@);
    }
}

/// Escaping distributes over extending the text by one character.
proof fn lemma_escape_snoc(s: Seq<char>, i: int)
    requires
        0 <= i < s.len(),
    ensures
        escape(s.subrange(0, i + 1)) == escape(s.subrange(0, i)) + esc_char(s[i]),
    decreases i,
{
    if i == 0 {
        assert(s.subrange(0, 1).drop_first() =~= s.subrange(0, 0));
        assert(escape(s.subrange(0, 0)) =~= Seq::<char>::empty());
        assert(escape(s.subrange(0, 1)) =~= esc_char(s[0]));
        assert(escape(s.subrange(0, 0)) + esc_char(s[0]) =~= esc_char(s[0]));
    } else {
        let t = s.drop_first();
        lemma_escape_snoc(t, i - 1);
        assert(s.subrange(0, i + 1).drop_first() =~= t.subrange(0, i));
        assert(s.subrange(0, i).drop_first() =~= t.subrange(0, i - 1));
        assert(escape(s.subrange(0, i + 1)) == esc_char(s[0]) + escape(t.subrange(0, i)));
        assert(escape(s.subrange(0, i)) == esc_char(s[0]) + escape(t.subrange(0, i - 1)));
        assert(t.subrange(0, i)[i - 1] == s[i]);
        assert(esc_char(s[0]) + (escape(t.subrange(0, i - 1)) + esc_char(s[i])) =~= (esc_char(s[0])
            + escape(t.subrange(0, i - 1))) + esc_char(s[i]));
    }
}

fn push_str_rendered(out: &mut Vec<char>, s: &str)
    ensures
        final(out)@ == old(out)@ + render_str(s@),
{
    out.push('"');
    let cs = chars_of(s);
    push_escaped(out, &cs);
    out.push('"');
    proof {
        assert(old(out)@ + seq!['"'] + escape(s@) + seq!['"'] =~= old(out)@ + render_str(s@));
    }
}

fn push_u64(out: &mut Vec<char>, n: u64)
    ensures
        final(out)@ == old(out)@ + render_u64(n as nat),
    decreases n,
{
    if n < 10 {
        out.push(hex_digit_exec(n as u8));
        proof {
            assert(old(out)@ + seq![hex_digit(n as nat)] =~= out@);
        }
    } else {
        push_u64(out, n / 10);
        out.push(hex_digit_exec((n % 10) as u8));
        proof {
            assert(old(out)@ + render_u64((n / 10) as nat) + seq![hex_digit((n % 10) as nat)]
                =~= old(out)@ + render_u64(n as nat));
        }
    }
}

/// The icon field: `null` for an absent icon, a string otherwise.
pub open spec fn render_icon(icon: Option<Seq<char>>) -> Seq<char> {
    match icon {
        None => "null"@,
        Some(s) => render_str(s),
    }
}

/// One record, as one JSON object with the four fields in fixed order.
pub open spec fn render_app(a: AppInfoV) -> Seq<char> {
    "{\"name\":"@ + render_str(a.name) + ",\"path\":"@ + render_str(a.path) + ",\"category\":"@
        + render_str(a.category.spec_name()) + ",\"icon\":"@ + render_icon(a.icon) + "}"@
}

pub open spec fn render_apps_rest(s: Seq<AppInfoV>) -> Seq<char>
    decreases s.len(),
{
    if s.len() == 0 {
        Seq::empty()
    } else {
        seq![','] + render_app(s[0]) + render_apps_rest(s.drop_first())
    }
}

/// The records, comma separated.
pub open spec fn render_apps(s: Seq<AppInfoV>) -> Seq<char> {
    if s.len() == 0 {
        Seq::empty()
    } else {
        render_app(s[0]) + render_apps_rest(s.drop_first())
    }
}

/// The whole snapshot file.
pub open spec fn render_cache(apps: Seq<AppInfoV>, ts: nat) -> Seq<char> {
    "{\"apps\":["@ + render_apps(apps) + "],\"timestamp\":"@ + render_u64(ts) + "}"@
}

fn push_app(out: &mut Vec<char>, a: &AppInfo)
    ensures
        final(out)@ == old(out)@ + render_app(a@),
{
    push_lit(out, "{\"name\":");
    push_str_rendered(out, a.name.as_str());
    push_lit(out, ",\"path\":");
    push_str_rendered(out, a.path.as_str());
    push_lit(out, ",\"category\":");
    push_str_rendered(out, a.category.name());
    push_lit(out, ",\"icon\":");
    match &a.icon {
        Some(s) => push_str_rendered(out, s.as_str()),
        None => push_lit(out, "null"),
    }
    push_lit(out, "}");
    proof {
        assert(final(out)@ =~= old(out)@ + render_app(a@));
    }
}

proof fn lemma_render_rest_snoc(t: Seq<AppInfoV>, a: AppInfoV)
    ensures
        render_apps_rest(t.push(a)) == render_apps_rest(t) + seq![','] + render_app(a),
    decreases t.len(),
{
    if t.len() == 0 {
        assert(t.push(a)[0] == a);
        assert(t.push(a).drop_first() =~= Seq::<AppInfoV>::empty());
        assert(render_apps_rest(Seq::<AppInfoV>::empty()) =~= Seq::<char>::empty());
        assert(render_apps_rest(t.push(a)) =~= render_apps_rest(t) + seq![','] + render_app(a));
    } else {
        assert(t.push(a)[0] == t[0]);
        assert(t.push(a).drop_first() =~= t.drop_first().push(a));
        lemma_render_rest_snoc(t.drop_first(), a);
        assert(seq![','] + render_app(t[0]) + (render_apps_rest(t.drop_first()) + seq![',']
            + render_app(a)) =~= (seq![','] + render_app(t[0]) + render_apps_rest(t.drop_first()))
            + seq![','] + render_app(a));
    }
}

proof fn lemma_render_apps_snoc(t: Seq<AppInfoV>, a: AppInfoV)
    requires
        t.len() >= 1,
    ensures
        render_apps(t.push(a)) == render_apps(t) + seq![','] + render_app(a),
{
    assert(t.push(a)[0] == t[0]);
    assert(t.push(a).drop_first() =~= t.drop_first().push(a));
    lemma_render_rest_snoc(t.drop_first(), a);
    assert(render_app(t[0]) + (render_apps_rest(t.drop_first()) + seq![','] + render_app(a))
        =~= (render_app(t[0]) + render_apps_rest(t.drop_first())) + seq![','] + render_app(a));
}

fn push_apps(out: &mut Vec<char>, apps: &Vec<AppInfo>)
    ensures
        final(out)@ == old(out)@ + render_apps(views(apps@)),
{
    if apps.len() == 0 {
        proof {
            assert(views(apps@).len() == 0);
            assert(out@ =~= old(out)@ + render_apps(views(apps@)));
        }
        return ;
    }
    push_app(out, &apps[0]);
    proof {
        let v1 = views(apps@.subrange(0, 1));
        assert(v1.len() == 1 && v1[0] == apps@[0]@);
        assert(v1.drop_first() =~= Seq::<AppInfoV>::empty());
        assert(out@ =~= old(out)@ + render_apps(v1));
    }
    let mut i: usize = 1;
    while i < apps.len()
        invariant
            1 <= i <= apps@.len(),
            out@ == old(out)@ + render_apps(views(apps@.subrange(0, i as int))),
        decreases apps.len() - i,
    {
        let ghost pre = views(apps@.subrange(0, i as int));
        push_lit(out, ",");
        push_app(out, &apps[i]);
        proof {
            reveal_strlit(",");
            assert(","@ =~= seq![',']);
            lemma_render_apps_snoc(pre, apps@[i as int]@);
            assert(views(apps@.subrange(0, i as int + 1)) =~= pre.push(apps@[i as int]@));
            assert(out@ =~= old(out)@ + render_apps(views(apps@.subrange(0, i as int + 1))));
        }
        i = i + 1;
    }
    proof {
        assert(apps@.subrange(0, apps@.len() as int) =~= apps@);
    }
}

/// Serialize one snapshot, exactly as [`render_cache`] states it.
pub fn render_cache_file(c: &AppCache) -> (r: String)
    ensures
        r@ == render_cache(views(c.apps@), c.timestamp as nat),
{
    let mut out: Vec<char> = Vec::new();
    push_lit(&mut out, "{\"apps\":[");
    push_apps(&mut out, &c.apps);
    push_lit(&mut out, "],\"timestamp\":");
    push_u64(&mut out, c.timestamp);
    push_lit(&mut out, "}");
    proof {
        assert(out@ =~= render_cache(views(c.apps@), c.timestamp as nat));
    }
    string_of(&out)
}

pub open spec fn is_dec_digit(c: char) -> bool {
    48 <= c as u32 <= 57
}

pub open spec fn dec_val(c: char) -> nat {
    (c as u32 - 48) as nat
}

pub open spec fn is_hex_lower(c: char) -> bool {
    is_dec_digit(c) || (97 <= c as u32 <= 102)
}

pub open spec fn hex_val(c: char) -> nat {
    if is_dec_digit(c) {
        dec_val(c)
    } else {
        (c as u32 - 87) as nat
    }
}

/// The literal `lit` stands at position `i` of `s`.
pub open spec fn spec_parse_lit(s: Seq<char>, i: int, lit: Seq<char>) -> Option<int> {
    if 0 <= i && i + lit.len() <= s.len() && s.subrange(i, i + lit.len()) == lit {
        Some(i + lit.len())
    } else {
        None
    }
}

/// The body of a JSON string from position `i` up to its closing
/// quote: the unescaped text and the position after the quote.
pub open spec fn spec_parse_str_body(s: Seq<char>, i: int) -> Option<(Seq<char>, int)>
    decreases s.len() - i,
{
    if i < 0 || i >= s.len() {
        None
    } else if s[i] == '"' {
        Some((Seq::empty(), i + 1))
    } else if s[i] == '\\' {
        if i + 1 < s.len() && (s[i + 1] == '"' || s[i + 1] == '\\') {
            match spec_parse_str_body(s, i + 2) {
                Some((t, j)) => Some((seq![s[i + 1]] + t, j)),
                None => None,
            }
        } else if i + 5 < s.len() && s[i + 1] == 'u' && s[i + 2] == '0' && s[i + 3] == '0'
            && is_hex_lower(s[i + 4]) && is_hex_lower(s[i + 5]) {
            match spec_parse_str_body(s, i + 6) {
                Some((t, j)) => Some(
                    (seq![(((hex_val(s[i + 4]) * 16 + hex_val(s[i + 5])) as u8) as char)] + t, j),
                ),
                None => None,
            }
        } else {
            None
        }
    } else if s[i] as u32 >= 32 {
        match spec_parse_str_body(s, i + 1) {
            Some((t, j)) => Some((seq![s[i]] + t, j)),
            None => None,
        }
    } else {
        None
    }
}

pub open spec fn spec_parse_string(s: Seq<char>, i: int) -> Option<(Seq<char>, int)> {
    if 0 <= i < s.len() && s[i] == '"' {
        spec_parse_str_body(s, i + 1)
    } else {
        None
    }
}

pub open spec fn spec_parse_u64_loop(s: Seq<char>, i: int, acc: nat) -> Option<(nat, int)>
    decreases s.len() - i,
{
    if 0 <= i < s.len() && is_dec_digit(s[i]) {
        if acc * 10 + dec_val(s[i]) <= u64::MAX {
            spec_parse_u64_loop(s, i + 1, acc * 10 + dec_val(s[i]))
        } else {
            None
        }
    } else {
        Some((acc, i))
    }
}

/// A run of decimal digits starting at `i`, as a value that fits u64.
pub open spec fn spec_parse_u64(s: Seq<char>, i: int) -> Option<(nat, int)> {
    if 0 <= i < s.len() && is_dec_digit(s[i]) {
        spec_parse_u64_loop(s, i, 0)
    } else {
        None
    }
}

/// The category a stored name denotes, if any.
pub open spec fn category_of_name(n: Seq<char>) -> Option<Category> {
    if n == "Games"@ {
        Some(Category::Games)
    } else if n == "Development"@ {
        Some(Category::Development)
    } else if n == "Media"@ {
        Some(Category::Media)
    } else if n == "Utilities"@ {
        Some(Category::Utilities)
    } else if n == "Web"@ {
        Some(Category::Web)
    } else if n == "Other"@ {
        Some(Category::Other)
    } else {
        None
    }
}

pub open spec fn spec_parse_icon(s: Seq<char>, i: int) -> Option<(Option<Seq<char>>, int)> {
    match spec_parse_lit(s, i, "null"@) {
        Some(j) => Some((None, j)),
        None => match spec_parse_string(s, i) {
            Some((t, j)) => Some((Some(t), j)),
            None => None,
        },
    }
}

/// One record object, fields in the fixed order the writer uses.
pub open spec fn spec_parse_app(s: Seq<char>, i: int) -> Option<(AppInfoV, int)> {
    match spec_parse_lit(s, i, "{\"name\":"@) {
        Some(j1) => match spec_parse_string(s, j1) {
            Some((name, j2)) => match spec_parse_lit(s, j2, ",\"path\":"@) {
                Some(j3) => match spec_parse_string(s, j3) {
                    Some((path, j4)) => match spec_parse_lit(s, j4, ",\"category\":"@) {
                        Some(j5) => match spec_parse_string(s, j5) {
                            Some((cat_name, j6)) => match category_of_name(cat_name) {
                                Some(category) => match spec_parse_lit(s, j6, ",\"icon\":"@) {
                                    Some(j7) => match spec_parse_icon(s, j7) {
                                        Some((icon, j8)) => match spec_parse_lit(s, j8, "}"@) {
                                            Some(j9) => Some(
                                                (AppInfoV { name, path, category, icon }, j9),
                                            ),
                                            None => None,
                                        },
                                        None => None,
                                    },
                                    None => None,
                                },
                                None => None,
                            },
                            None => None,
                        },
                        None => None,
                    },
                    None => None,
                },
                None => None,
            },
            None => None,
        },
        None => None,
    }
}

pub open spec fn spec_parse_apps_rest(s: Seq<char>, i: int, acc: Seq<AppInfoV>) -> Option<
    (Seq<AppInfoV>, int),
>
    decreases s.len() - i,
{
    if 0 <= i < s.len() && s[i] == ',' {
        match spec_parse_app(s, i + 1) {
            Some((a, j)) => {
                if i + 1 <= j <= s.len() {
                    spec_parse_apps_rest(s, j, acc.push(a))
                } else {
                    None
                }
            },
            None => None,
        }
    } else {
        Some((acc, i))
    }
}

/// A comma-separated run of record objects (possibly none).
pub open spec fn spec_parse_apps(s: Seq<char>, i: int) -> Option<(Seq<AppInfoV>, int)> {
    if 0 <= i < s.len() && s[i] == '{' {
        match spec_parse_app(s, i) {
            Some((a, j)) => {
                if i < j <= s.len() {
                    spec_parse_apps_rest(s, j, seq![a])
                } else {
                    None
                }
            },
            None => None,
        }
    } else {
        Some((Seq::empty(), i))
    }
}

/// The whole snapshot file; the entire input must be consumed.
pub open spec fn spec_parse_cache(s: Seq<char>) -> Option<(Seq<AppInfoV>, nat)> {
    match spec_parse_lit(s, 0, "{\"apps\":["@) {
        Some(j1) => match spec_parse_apps(s, j1) {
            Some((apps, j2)) => match spec_parse_lit(s, j2, "],\"timestamp\":"@) {
                Some(j3) => match spec_parse_u64(s, j3) {
                    Some((n, j4)) => match spec_parse_lit(s, j4, "}"@) {
                        Some(j5) => {
                            if j5 == s.len() {
                                Some((apps, n))
                            } else {
                                None
                            }
                        },
                        None => None,
                    },
                    None => None,
                },
                None => None,
            },
            None => None,
        },
        None => None,
    }
}

proof fn lemma_hex_digit_props(n: nat)
    requires
        n < 16,
    ensures
        is_hex_lower(hex_digit(n)),
        hex_val(hex_digit(n)) == n,
        n < 10 ==> is_dec_digit(hex_digit(n)) && dec_val(hex_digit(n)) == n,
{
}

pub open spec fn pow10(k: nat) -> nat
    decreases k,
{
    if k == 0 {
        1
    } else {
        10 * pow10((k - 1) as nat)
    }
}

proof fn lemma_render_u64_digits(n: nat)
    ensures
        render_u64(n).len() >= 1,
        forall|k: int| 0 <= k < render_u64(n).len() ==> is_dec_digit(#[trigger] render_u64(n)[k]),
    decreases n,
{
    if n < 10 {
        lemma_hex_digit_props(n);
    } else {
        lemma_render_u64_digits(n / 10);
        lemma_hex_digit_props(n % 10);
        assert(forall|k: int|
            0 <= k < render_u64(n / 10).len() ==> render_u64(n)[k] == render_u64(n / 10)[k]);
        assert(render_u64(n)[render_u64(n).len() - 1] == hex_digit(n % 10));
    }
}

/// A control character comes back unchanged from its code point.
proof fn lemma_char_roundtrip(c: char)
    requires
        (c as u32) < 32,
    ensures
        (((c as u32) as u8) as char) == c,
{
}

/// One character of a piece that is known to stand at position `i`.
proof fn lemma_piece_char(s: Seq<char>, i: int, r: Seq<char>, m: int)
    requires
        0 <= i,
        i + r.len() <= s.len(),
        s.subrange(i, i + r.len()) == r,
        0 <= m < r.len(),
    ensures
        s[i + m] == r[m],
{
    assert(s.subrange(i, i + r.len())[m] == s[i + m]);
}

/// A concatenation standing at position `i` splits into its two parts.
proof fn lemma_sub_split(s: Seq<char>, i: int, a: Seq<char>, b: Seq<char>)
    requires
        0 <= i,
        i + a.len() + b.len() <= s.len(),
        s.subrange(i, i + a.len() + b.len()) == a + b,
    ensures
        s.subrange(i, i + a.len()) == a,
        s.subrange(i + a.len(), i + a.len() + b.len()) == b,
{
    let w = s.subrange(i, i + a.len() + b.len());
    assert(s.subrange(i, i + a.len()) =~= a) by {
        assert(forall|m: int|
            0 <= m < a.len() ==> #[trigger] s.subrange(i, i + a.len())[m] == w[m] && w[m] == a[m]);
    }
    assert(s.subrange(i + a.len(), i + a.len() + b.len()) =~= b) by {
        assert(forall|m: int|
            0 <= m < b.len() ==> #[trigger] s.subrange(i + a.len(), i + a.len() + b.len())[m]
                == w[a.len() + m] && w[a.len() + m] == b[m]);
    }
}

proof fn lemma_parse_digits(s: Seq<char>, i: int, n: nat, acc: nat)
    requires
        0 <= i,
        i + render_u64(n).len() <= s.len(),
        s.subrange(i, i + render_u64(n).len()) == render_u64(n),
        acc * pow10(render_u64(n).len()) + n <= u64::MAX,
    ensures
        spec_parse_u64_loop(s, i, acc) == spec_parse_u64_loop(
            s,
            i + render_u64(n).len(),
            acc * pow10(render_u64(n).len()) + n,
        ),
    decreases n,
{
    let r = render_u64(n);
    let ll = r.len();
    if n < 10 {
        lemma_hex_digit_props(n);
        lemma_piece_char(s, i, r, 0);
        assert(s[i] == hex_digit(n));
        assert(pow10(1) == 10 * pow10(0));
        assert(acc * pow10(1) + n == acc * 10 + n) by (nonlinear_arith)
            requires
                pow10(1) == 10,
        ;
    } else {
        let m = n / 10;
        let d = n % 10;
        let rm = render_u64(m);
        let lm = rm.len();
        assert(r == rm + seq![hex_digit(d)]);
        assert(ll == lm + 1);
        lemma_sub_split(s, i, rm, seq![hex_digit(d)]);
        lemma_piece_char(s, i + lm, seq![hex_digit(d)], 0);
        assert(s[i + lm] == hex_digit(d));
        assert(pow10(ll) == 10 * pow10(lm));
        let x = acc * pow10(lm) + m;
        assert(x * 10 + d == acc * pow10(ll) + n) by (nonlinear_arith)
            requires
                x == acc * pow10(lm) + m,
                pow10(ll) == 10 * pow10(lm),
                m == n / 10,
                d == n % 10,
                n >= 10,
        ;
        assert(x <= x * 10 + d) by (nonlinear_arith);
        lemma_parse_digits(s, i, m, acc);
        lemma_hex_digit_props(d);
        assert(spec_parse_u64_loop(s, i + lm, x) == spec_parse_u64_loop(s, i + ll, x * 10 + d));
    }
}

proof fn lemma_parse_u64_round(s: Seq<char>, i: int, n: nat)
    requires
        0 <= i,
        n <= u64::MAX,
        i + render_u64(n).len() <= s.len(),
        s.subrange(i, i + render_u64(n).len()) == render_u64(n),
        i + render_u64(n).len() == s.len() || !is_dec_digit(s[i + render_u64(n).len()]),
    ensures
        spec_parse_u64(s, i) == Some((n, i + render_u64(n).len())),
{
    lemma_render_u64_digits(n);
    assert(s[i] == render_u64(n)[0]) by {
        assert(s.subrange(i, i + render_u64(n).len())[0] == s[i]);
    }
    assert(0 * pow10(render_u64(n).len()) + n == n) by (nonlinear_arith);
    lemma_parse_digits(s, i, n, 0);
}

proof fn lemma_parse_str_body_round(s: Seq<char>, i: int, t: Seq<char>)
    requires
        0 <= i,
        i + escape(t).len() + 1 <= s.len(),
        s.subrange(i, i + escape(t).len()) == escape(t),
        s[i + escape(t).len()] == '"',
    ensures
        spec_parse_str_body(s, i) == Some((t, i + escape(t).len() + 1)),
    decreases t.len(),
{
    let e = escape(t);
    if t.len() == 0 {
        assert(e.len() == 0);
    } else {
        let c = t[0];
        let ec = esc_char(c);
        let rest = t.drop_first();
        let k = ec.len();
        assert(e == ec + escape(rest));
        lemma_sub_split(s, i, ec, escape(rest));
        assert(s[i + k + escape(rest).len()] == '"');
        lemma_parse_str_body_round(s, i + k, rest);
        if c == '"' || c == '\\' {
            lemma_piece_char(s, i, ec, 0);
            lemma_piece_char(s, i, ec, 1);
            assert(s[i] == '\\' && s[i + 1] == c);
            assert(seq![c] + rest =~= t);
        } else if (c as u32) < 32 {
            let hi = (c as u32 / 16) as nat;
            let lo = (c as u32 % 16) as nat;
            lemma_hex_digit_props(hi);
            lemma_hex_digit_props(lo);
            lemma_piece_char(s, i, ec, 0);
            lemma_piece_char(s, i, ec, 1);
            lemma_piece_char(s, i, ec, 2);
            lemma_piece_char(s, i, ec, 3);
            lemma_piece_char(s, i, ec, 4);
            lemma_piece_char(s, i, ec, 5);
            assert(s[i] == '\\' && s[i + 1] == 'u' && s[i + 2] == '0' && s[i + 3] == '0');
            assert(s[i + 4] == hex_digit(hi) && s[i + 5] == hex_digit(lo));
            let v = hex_val(s[i + 4]) * 16 + hex_val(s[i + 5]);
            assert(v == hi * 16 + lo);
            assert(hi * 16 + lo == c as u32);
            assert(v < 32);
            assert((v as u8) == ((c as u32) as u8));
            lemma_char_roundtrip(c);
            assert(((v as u8) as char) == c);
            assert(seq![c] + rest =~= t);
        } else {
            lemma_piece_char(s, i, ec, 0);
            assert(s[i] == c);
            assert(seq![c] + rest =~= t);
        }
    }
}

proof fn lemma_parse_string_round(s: Seq<char>, i: int, t: Seq<char>)
    requires
        0 <= i,
        i + render_str(t).len() <= s.len(),
        s.subrange(i, i + render_str(t).len()) == render_str(t),
    ensures
        spec_parse_string(s, i) == Some((t, i + render_str(t).len())),
{
    let e = escape(t);
    assert(render_str(t) == (seq!['"'] + e) + seq!['"']);
    lemma_sub_split(s, i, seq!['"'] + e, seq!['"']);
    lemma_sub_split(s, i, seq!['"'], e);
    lemma_piece_char(s, i, seq!['"'], 0);
    lemma_piece_char(s, i + 1 + e.len(), seq!['"'], 0);
    assert(s[i] == '"');
    assert(s[i + 1 + e.len()] == '"');
    lemma_parse_str_body_round(s, i + 1, t);
}

proof fn lemma_category_name(c: Category)
    ensures
        category_of_name(c.spec_name()) == Some(c),
{
    reveal_strlit("Games");
    reveal_strlit("Development");
    reveal_strlit("Media");
    reveal_strlit("Utilities");
    reveal_strlit("Web");
    reveal_strlit("Other");
    match c {
        Category::Games => {
        },
        Category::Development => {
            assert("Development"@.len() != "Games"@.len());
        },
        Category::Media => {
            assert("Media"@[0] != "Games"@[0]);
            assert("Media"@.len() != "Development"@.len());
        },
        Category::Utilities => {
            assert("Utilities"@.len() != "Games"@.len());
            assert("Utilities"@.len() != "Development"@.len());
            assert("Utilities"@.len() != "Media"@.len());
        },
        Category::Web => {
            assert("Web"@.len() != "Games"@.len());
            assert("Web"@.len() != "Development"@.len());
            assert("Web"@.len() != "Media"@.len());
            assert("Web"@.len() != "Utilities"@.len());
        },
        Category::Other => {
            assert("Other"@[0] != "Games"@[0]);
            assert("Other"@.len() != "Development"@.len());
            assert("Other"@[0] != "Media"@[0]);
            assert("Other"@.len() != "Utilities"@.len());
            assert("Other"@.len() != "Web"@.len());
        },
    }
}

#[verifier::rlimit(60)]
proof fn lemma_parse_app_round(s: Seq<char>, i: int, a: AppInfoV)
    requires
        0 <= i,
        i + render_app(a).len() <= s.len(),
        s.subrange(i, i + render_app(a).len()) == render_app(a),
    ensures
        spec_parse_app(s, i) == Some((a, i + render_app(a).len())),
{
    let l1 = "{\"name\":"@;
    let s1 = render_str(a.name);
    let l2 = ",\"path\":"@;
    let s2 = render_str(a.path);
    let l3 = ",\"category\":"@;
    let s3 = render_str(a.category.spec_name());
    let l4 = ",\"icon\":"@;
    let si = render_icon(a.icon);
    let l5 = "}"@;
    let pre8 = l1 + s1 + l2 + s2 + l3 + s3 + l4 + si;
    let pre7 = l1 + s1 + l2 + s2 + l3 + s3 + l4;
    let pre6 = l1 + s1 + l2 + s2 + l3 + s3;
    let pre5 = l1 + s1 + l2 + s2 + l3;
    let pre4 = l1 + s1 + l2 + s2;
    let pre3 = l1 + s1 + l2;
    let pre2 = l1 + s1;
    lemma_sub_split(s, i, pre8, l5);
    lemma_sub_split(s, i, pre7, si);
    lemma_sub_split(s, i, pre6, l4);
    lemma_sub_split(s, i, pre5, s3);
    lemma_sub_split(s, i, pre4, l3);
    lemma_sub_split(s, i, pre3, s2);
    lemma_sub_split(s, i, pre2, l2);
    lemma_sub_split(s, i, l1, s1);
    let j1 = i + l1.len();
    let j2 = j1 + s1.len();
    let j3 = j2 + l2.len();
    let j4 = j3 + s2.len();
    let j5 = j4 + l3.len();
    let j6 = j5 + s3.len();
    let j7 = j6 + l4.len();
    let j8 = j7 + si.len();
    let j9 = j8 + l5.len();
    assert(spec_parse_lit(s, i, l1) == Some(j1));
    lemma_parse_string_round(s, j1, a.name);
    assert(spec_parse_lit(s, j2, l2) == Some(j3));
    lemma_parse_string_round(s, j3, a.path);
    assert(spec_parse_lit(s, j4, l3) == Some(j5));
    lemma_parse_string_round(s, j5, a.category.spec_name());
    lemma_category_name(a.category);
    assert(spec_parse_lit(s, j6, l4) == Some(j7));
    // the icon field
    reveal_strlit("null");
    match a.icon {
        None => {
            assert(si == "null"@);
            assert(spec_parse_lit(s, j7, "null"@) == Some(j8));
        },
        Some(t) => {
            assert(si == render_str(t));
            assert(si[0] == '"');
            lemma_piece_char(s, j7, si, 0);
            assert(s[j7] == '"');
            if j7 + 4 <= s.len() && s.subrange(j7, j7 + 4) == "null"@ {
                assert(s.subrange(j7, j7 + 4)[0] == s[j7]);
                assert("null"@[0] == 'n');
                assert(false);
            }
            assert(spec_parse_lit(s, j7, "null"@) is None);
            lemma_parse_string_round(s, j7, t);
        },
    }
    assert(spec_parse_lit(s, j8, l5) == Some(j9));
    assert(AppInfoV { name: a.name, path: a.path, category: a.category, icon: a.icon } == a);
}

proof fn lemma_parse_apps_rest_round(s: Seq<char>, i: int, acc: Seq<AppInfoV>, rest: Seq<AppInfoV>)
    requires
        0 <= i,
        i + render_apps_rest(rest).len() <= s.len(),
        s.subrange(i, i + render_apps_rest(rest).len()) == render_apps_rest(rest),
        i + render_apps_rest(rest).len() == s.len() || s[i + render_apps_rest(rest).len()] != ',',
    ensures
        spec_parse_apps_rest(s, i, acc) == Some((acc + rest, i + render_apps_rest(rest).len())),
    decreases rest.len(),
{
    if rest.len() == 0 {
        assert(render_apps_rest(rest).len() == 0);
        assert(acc + rest =~= acc);
    } else {
        let a = rest[0];
        let more = rest.drop_first();
        let head = seq![','] + render_app(a);
        assert(render_apps_rest(rest) == head + render_apps_rest(more));
        lemma_sub_split(s, i, head, render_apps_rest(more));
        lemma_sub_split(s, i, seq![','], render_app(a));
        lemma_piece_char(s, i, seq![','], 0);
        assert(s[i] == ',');
        lemma_parse_app_round(s, i + 1, a);
        let j = i + 1 + render_app(a).len();
        lemma_parse_apps_rest_round(s, j, acc.push(a), more);
        assert(acc.push(a) + more =~= acc + rest);
    }
}

proof fn lemma_parse_apps_round(s: Seq<char>, i: int, apps: Seq<AppInfoV>)
    requires
        0 <= i,
        i + render_apps(apps).len() <= s.len(),
        s.subrange(i, i + render_apps(apps).len()) == render_apps(apps),
        i + render_apps(apps).len() == s.len() || s[i + render_apps(apps).len()] != ',',
        apps.len() == 0 ==> (i == s.len() || s[i] != '{'),
    ensures
        spec_parse_apps(s, i) == Some((apps, i + render_apps(apps).len())),
{
    if apps.len() == 0 {
        assert(render_apps(apps).len() == 0);
    } else {
        let a = apps[0];
        let more = apps.drop_first();
        assert(render_apps(apps) == render_app(a) + render_apps_rest(more));
        lemma_sub_split(s, i, render_app(a), render_apps_rest(more));
        reveal_strlit("{\"name\":");
        assert(render_app(a)[0] == '{');
        lemma_piece_char(s, i, render_app(a), 0);
        assert(s[i] == '{');
        lemma_parse_app_round(s, i, a);
        let j = i + render_app(a).len();
        lemma_parse_apps_rest_round(s, j, seq![a], more);
        assert(seq![a] + more =~= apps);
    }
}

/// What the writer stores, the reader accepts and maps back to the
/// very same snapshot: the disk tier loses nothing between runs.
#[verifier::rlimit(60)]
pub proof fn lemma_cache_round_trip(apps: Seq<AppInfoV>, ts: u64)
    ensures
        spec_parse_cache(render_cache(apps, ts as nat)) == Some((apps, ts as nat)),
{
    let l0 = "{\"apps\":["@;
    let la = render_apps(apps);
    let lt = "],\"timestamp\":"@;
    let ln = render_u64(ts as nat);
    let lz = "}"@;
    let s = render_cache(apps, ts as nat);
    let pre4 = l0 + la + lt + ln;
    let pre3 = l0 + la + lt;
    let pre2 = l0 + la;
    assert(s.subrange(0, s.len() as int) =~= s);
    lemma_sub_split(s, 0, pre4, lz);
    lemma_sub_split(s, 0, pre3, ln);
    lemma_sub_split(s, 0, pre2, lt);
    lemma_sub_split(s, 0, l0, la);
    let j1 = l0.len() as int;
    let j2 = j1 + la.len();
    let j3 = j2 + lt.len();
    let j4 = j3 + ln.len();
    let j5 = j4 + lz.len();
    assert(spec_parse_lit(s, 0, l0) == Some(j1));
    reveal_strlit("],\"timestamp\":");
    assert(lt[0] == ']');
    lemma_piece_char(s, j2, lt, 0);
    assert(s[j2] == ']');
    lemma_parse_apps_round(s, j1, apps);
    assert(spec_parse_lit(s, j2, lt) == Some(j3));
    reveal_strlit("}");
    assert(lz[0] == '}');
    lemma_piece_char(s, j4, lz, 0);
    assert(s[j4] == '}');
    assert(!is_dec_digit('}'));
    lemma_parse_u64_round(s, j3, ts as nat);
    assert(spec_parse_lit(s, j4, lz) == Some(j5));
    assert(j5 == s.len());
}

fn expect_lit(s: &Vec<char>, i: usize, lit: &str) -> (r: Option<usize>)
    ensures
        match r {
            Some(j) => spec_parse_lit(s@, i as int, lit@) == Some(j as int) && i <= j <= s@.len(),
            None => spec_parse_lit(s@, i as int, lit@) is None,
        },
{
    let n = chars_of(lit);
    if i > s.len() || n.len() > s.len() - i {
        return None;
    }
    if matches_at(s, &n, i) {
        Some(i + n.len())
    } else {
        None
    }
}

fn is_hex_exec(c: char) -> (r: bool)
    ensures
        r == is_hex_lower(c),
{
    let u = c as u32;
    (48 <= u && u <= 57) || (97 <= u && u <= 102)
}

fn hex_val_exec(c: char) -> (r: u32)
    requires
        is_hex_lower(c),
    ensures
        r == hex_val(c),
        r < 16,
{
    let u = c as u32;
    if u <= 57 {
        u - 48
    } else {
        u - 87
    }
}

fn parse_string_exec(s: &Vec<char>, i: usize) -> (r: Option<(Vec<char>, usize)>)
    ensures
        match r {
            Some((t, j)) => spec_parse_string(s@, i as int) == Some((t@, j as int)) && i < j
                <= s@.len(),
            None => spec_parse_string(s@, i as int) is None,
        },
{
    if !(i < s.len() && s[i] == '"') {
        return None;
    }
    let ghost start = i as int + 1;
    let mut acc: Vec<char> = Vec::new();
    let mut p: usize = i + 1;
    loop
        invariant
            i as int + 1 == start,
            i < s@.len(),
            s@[i as int] == '"',
            start <= p <= s@.len(),
            match spec_parse_str_body(s@, p as int) {
                Some((t, j)) => spec_parse_str_body(s@, start) == Some((acc@ + t, j)),
                None => spec_parse_str_body(s@, start) is None,
            },
        decreases s@.len() - p,
    {
        if p == s.len() {
            return None;
        }
        let c = s[p];
        if c == '"' {
            proof {
                assert(acc@ + Seq::<char>::empty() =~= acc@);
            }
            return Some((acc, p + 1));
        }
        if c == '\\' {
            if s.len() - p > 1 && (s[p + 1] == '"' || s[p + 1] == '\\') {
                let c2 = s[p + 1];
                let ghost acc0 = acc@;
                acc.push(c2);
                proof {
                    match spec_parse_str_body(s@, p as int + 2) {
                        Some((t, j)) => {
                            assert(spec_parse_str_body(s@, p as int) == Some((seq![c2] + t, j)));
                            assert(acc0 + (seq![c2] + t) =~= acc@ + t);
                        },
                        None => {},
                    }
                }
                p = p + 2;
            } else if s.len() - p > 5 && s[p + 1] == 'u' && s[p + 2] == '0' && s[p + 3] == '0'
                && is_hex_exec(s[p + 4]) && is_hex_exec(s[p + 5]) {
                let v = hex_val_exec(s[p + 4]) * 16 + hex_val_exec(s[p + 5]);
                let c2 = (v as u8) as char;
                let ghost acc0 = acc@;
                acc.push(c2);
                proof {
                    match spec_parse_str_body(s@, p as int + 6) {
                        Some((t, j)) => {
                            assert(spec_parse_str_body(s@, p as int) == Some((seq![c2] + t, j)));
                            assert(acc0 + (seq![c2] + t) =~= acc@ + t);
                        },
                        None => {},
                    }
                }
                p = p + 6;
            } else {
                return None;
            }
        } else if (c as u32) >= 32 {
            let ghost acc0 = acc@;
            acc.push(c);
            proof {
                match spec_parse_str_body(s@, p as int + 1) {
                    Some((t, j)) => {
                        assert(spec_parse_str_body(s@, p as int) == Some((seq![c] + t, j)));
                        assert(acc0 + (seq![c] + t) =~= acc@ + t);
                    },
                    None => {},
                }
            }
            p = p + 1;
        } else {
            return None;
        }
    }
}

fn parse_u64_exec(s: &Vec<char>, i: usize) -> (r: Option<(u64, usize)>)
    ensures
        match r {
            Some((n, j)) => spec_parse_u64(s@, i as int) == Some((n as nat, j as int)) && i <= j
                <= s@.len(),
            None => spec_parse_u64(s@, i as int) is None,
        },
{
    if !(i < s.len()) {
        return None;
    }
    let c0 = s[i] as u32;
    if !(48 <= c0 && c0 <= 57) {
        return None;
    }
    let mut acc: u64 = 0;
    let mut p: usize = i;
    loop
        invariant
            i <= p <= s@.len(),
            i < s@.len(),
            is_dec_digit(s@[i as int]),
            spec_parse_u64_loop(s@, i as int, 0) == spec_parse_u64_loop(s@, p as int, acc as nat),
        decreases s@.len() - p,
    {
        if p < s.len() {
            let c = s[p] as u32;
            if 48 <= c && c <= 57 {
                let d = (c - 48) as u64;
                if acc > (u64::MAX - d) / 10 {
                    proof {
                        assert((acc as nat) * 10 + dec_val(s@[p as int]) > u64::MAX) by (
                        nonlinear_arith)
                            requires
                                acc > (u64::MAX - d) / 10,
                                d == dec_val(s@[p as int]),
                                d <= 9,
                                acc >= 0,
                        ;
                    }
                    return None;
                }
                proof {
                    assert((acc as nat) * 10 + d <= u64::MAX) by (nonlinear_arith)
                        requires
                            acc <= (u64::MAX - d) / 10,
                            d <= 9,
                            acc >= 0,
                    ;
                }
                acc = acc * 10 + d;
                p = p + 1;
                continue ;
            }
        }
        return Some((acc, p));
    }
}

fn category_from_name(n: &Vec<char>) -> (r: Option<Category>)
    ensures
        r == category_of_name(n@),
{
    if lit_eq(n, "Games") {
        Some(Category::Games)
    } else if lit_eq(n, "Development") {
        Some(Category::Development)
    } else if lit_eq(n, "Media") {
        Some(Category::Media)
    } else if lit_eq(n, "Utilities") {
        Some(Category::Utilities)
    } else if lit_eq(n, "Web") {
        Some(Category::Web)
    } else if lit_eq(n, "Other") {
        Some(Category::Other)
    } else {
        None
    }
}

fn parse_icon_exec(s: &Vec<char>, i: usize) -> (r: Option<(Option<String>, usize)>)
    ensures
        match r {
            Some((icon, j)) => spec_parse_icon(s@, i as int) == Some(
                (opt_view(icon), j as int),
            ) && i <= j <= s@.len(),
            None => spec_parse_icon(s@, i as int) is None,
        },
{
    match expect_lit(s, i, "null") {
        Some(j) => Some((None, j)),
        None => match parse_string_exec(s, i) {
            Some((t, j)) => Some((Some(string_of(&t)), j)),
            None => None,
        },
    }
}

fn parse_app_exec(s: &Vec<char>, i: usize) -> (r: Option<(AppInfo, usize)>)
    ensures
        match r {
            Some((a, j)) => spec_parse_app(s@, i as int) == Some((a@, j as int)) && i < j
                <= s@.len(),
            None => spec_parse_app(s@, i as int) is None,
        },
{
    let j1 = match expect_lit(s, i, "{\"name\":") {
        Some(j) => j,
        None => {
            return None;
        },
    };
    let (name, j2) = match parse_string_exec(s, j1) {
        Some(x) => x,
        None => {
            return None;
        },
    };
    let j3 = match expect_lit(s, j2, ",\"path\":") {
        Some(j) => j,
        None => {
            return None;
        },
    };
    let (path, j4) = match parse_string_exec(s, j3) {
        Some(x) => x,
        None => {
            return None;
        },
    };
    let j5 = match expect_lit(s, j4, ",\"category\":") {
        Some(j) => j,
        None => {
            return None;
        },
    };
    let (cat_name, j6) = match parse_string_exec(s, j5) {
        Some(x) => x,
        None => {
            return None;
        },
    };
    let category = match category_from_name(&cat_name) {
        Some(c) => c,
        None => {
            return None;
        },
    };
    let j7 = match expect_lit(s, j6, ",\"icon\":") {
        Some(j) => j,
        None => {
            return None;
        },
    };
    let (icon, j8) = match parse_icon_exec(s, j7) {
        Some(x) => x,
        None => {
            return None;
        },
    };
    let j9 = match expect_lit(s, j8, "}") {
        Some(j) => j,
        None => {
            return None;
        },
    };
    let a = AppInfo { name: string_of(&name), path: string_of(&path), category, icon };
    proof {
        let sp = spec_parse_app(s@, i as int);
        assert(sp matches Some(x) && x.1 == j9 as int);
        assert(sp matches Some(x) && x.0 =~= a@);
    }
    Some((a, j9))
}

fn parse_apps_exec(s: &Vec<char>, i: usize) -> (r: Option<(Vec<AppInfo>, usize)>)
    ensures
        match r {
            Some((apps, j)) => spec_parse_apps(s@, i as int) == Some(
                (views(apps@), j as int),
            ) && i <= j,
            None => spec_parse_apps(s@, i as int) is None,
        },
{
    if !(i < s.len() && s[i] == '{') {
        let apps: Vec<AppInfo> = Vec::new();
        proof {
            assert(views(apps@) =~= Seq::<AppInfoV>::empty());
        }
        return Some((apps, i));
    }
    let (a0, j0) = match parse_app_exec(s, i) {
        Some(x) => x,
        None => {
            return None;
        },
    };
    let mut apps: Vec<AppInfo> = Vec::new();
    apps.push(a0);
    proof {
        assert(views(apps@) =~= seq![a0@]);
    }
    let mut p: usize = j0;
    loop
        invariant
            i <= p <= s@.len(),
            match spec_parse_apps_rest(s@, p as int, views(apps@)) {
                Some((res, jj)) => spec_parse_apps(s@, i as int) == Some((res, jj)),
                None => spec_parse_apps(s@, i as int) is None,
            },
        decreases s@.len() - p,
    {
        if p < s.len() && s[p] == ',' {
            let (a2, j2) = match parse_app_exec(s, p + 1) {
                Some(x) => x,
                None => {
                    return None;
                },
            };
            let ghost before = views(apps@);
            apps.push(a2);
            proof {
                assert(views(apps@) =~= before.push(a2@));
            }
            p = j2;
        } else {
            return Some((apps, p));
        }
    }
}

fn parse_cache_chars(s: &Vec<char>) -> (r: Option<AppCache>)
    ensures
        match r {
            Some(c) => spec_parse_cache(s@) == Some((views(c.apps@), c.timestamp as nat)),
            None => spec_parse_cache(s@) is None,
        },
{
    let j1 = match expect_lit(s, 0, "{\"apps\":[") {
        Some(j) => j,
        None => {
            return None;
        },
    };
    let (apps, j2) = match parse_apps_exec(s, j1) {
        Some(x) => x,
        None => {
            return None;
        },
    };
    let j3 = match expect_lit(s, j2, "],\"timestamp\":") {
        Some(j) => j,
        None => {
            return None;
        },
    };
    let (n, j4) = match parse_u64_exec(s, j3) {
        Some(x) => x,
        None => {
            return None;
        },
    };
    let j5 = match expect_lit(s, j4, "}") {
        Some(j) => j,
        None => {
            return None;
        },
    };
    if j5 != s.len() {
        return None;
    }
    Some(AppCache { apps, timestamp: n })
}

/// Read one snapshot back, strictly: `None` for anything the writer
/// would not have produced, which the cache treats as a miss.
pub fn parse_cache_file(s: &str) -> (r: Option<AppCache>)
    ensures
        match r {
            Some(c) => spec_parse_cache(s@) == Some((views(c.apps@), c.timestamp as nat)),
            None => spec_parse_cache(s@) is None,
        },
{
    let cs = chars_of(s);
    parse_cache_chars(&cs)
}

} // verus!
