//! The site configuration: its model, its defaults, and its normalization
//! (address completion and validation, id sanitizing and de-duplication,
//! name completion, pulse clamping, a single default site, render mode).

use vstd::prelude::*;
use vstd::string::*;

use crate::text::{
    chars_eq, chars_of, dec, dec_chars, is_alnum, lemma_dec_injective, lemma_dec_nonempty,
    lemma_strip_edges, lemma_strip_end_at, lemma_strip_end_prefix, lemma_strip_idempotent, lemma_strip_start_at,
    lower, lower_char, lower_chars, string_of, strip, strip_chars, trim,
    trim_chars, trim_str, is_digit, Strip, char_is_alnum, contains_chars, contains_sub,
};
use crate::urlparts::{opt_str_view, parse_url, url_parse, UrlParts, UrlPartsView};

verus! {

/// One SAS environment; each gets a window of its own.
#[derive(Clone, Debug)]
pub struct Site {
    /// Window identifier, also used by the tray menu.
    pub id: String,
    /// Display name (window title and tray entry).
    pub name: String,
    /// Address (http/https).
    pub url: String,
    /// Pretend to be an installed PWA and send activity pulses.
    pub keep_awake: bool,
    /// Seconds between activity pulses; 0 sends none.
    pub pulse_seconds: u64,
    /// Window without system title bar (an injected bar stands in for it).
    pub frameless: bool,
    /// Connect to this environment on start-up (at most one per configuration).
    pub default: bool,
}

pub struct SiteView {
    pub id: Seq<char>,
    pub name: Seq<char>,
    pub url: Seq<char>,
    pub keep_awake: bool,
    pub pulse_seconds: u64,
    pub frameless: bool,
    pub default: bool,
}

impl View for Site {
    type V = SiteView;

    open spec fn view(&self) -> SiteView {
        SiteView {
            id: self.id@,
            name: self.name@,
            url: self.url@,
            keep_awake: self.keep_awake,
            pulse_seconds: self.pulse_seconds,
            frameless: self.frameless,
            default: self.default,
        }
    }
}

/// The whole configuration.
#[derive(Clone, Debug)]
pub struct AppConfig {
    pub sites: Vec<Site>,
    /// Id of the site opened last.
    pub last_site_id: Option<String>,
    /// UI theme preference: system / light / dark.
    pub ui_theme: String,
    /// Linux render mode: auto / smooth / compat.
    pub render_mode: String,
    /// Whether DevTools may be opened in newly created windows.
    pub dev_tools: bool,
}

pub struct AppConfigView {
    pub sites: Seq<SiteView>,
    pub last_site_id: Option<Seq<char>>,
    pub ui_theme: Seq<char>,
    pub render_mode: Seq<char>,
    pub dev_tools: bool,
}

pub open spec fn sites_view(v: Seq<Site>) -> Seq<SiteView> {
    v.map_values(|s: Site| s@)
}

impl View for AppConfig {
    type V = AppConfigView;

    open spec fn view(&self) -> AppConfigView {
        AppConfigView {
            sites: sites_view(self.sites@),
            last_site_id: opt_str_view(self.last_site_id),
            ui_theme: self.ui_theme@,
            render_mode: self.render_mode@,
            dev_tools: self.dev_tools,
        }
    }
}

/// A site with every field at its default: keep-alive on, a pulse every 120 s.
pub open spec fn default_site() -> SiteView {
    SiteView {
        id: Seq::empty(),
        name: Seq::empty(),
        url: Seq::empty(),
        keep_awake: true,
        pulse_seconds: 120,
        frameless: false,
        default: false,
    }
}

impl Default for Site {
    fn default() -> (s: Self)
        ensures
            s@ == default_site(),
    {
        Site {
            id: String::new(),
            name: String::new(),
            url: String::new(),
            keep_awake: true,
            pulse_seconds: 120,
            frameless: false,
            default: false,
        }
    }
}

/// The empty configuration: no sites, theme "system", render mode "auto".
pub open spec fn default_config() -> AppConfigView {
    AppConfigView {
        sites: Seq::empty(),
        last_site_id: None,
        ui_theme: "system"@,
        render_mode: "auto"@,
        dev_tools: false,
    }
}

impl Default for AppConfig {
    fn default() -> (c: Self)
        ensures
            c@ == default_config(),
    {
        let c = AppConfig {
            sites: Vec::new(),
            last_site_id: None,
            ui_theme: String::from_str("system"),
            render_mode: String::from_str(DEFAULT_RENDER_MODE),
            dev_tools: false,
        };
        assert(c@.sites =~= Seq::<SiteView>::empty());
        c
    }
}

impl Site {
    /// A field-for-field copy.
    pub fn duplicate(&self) -> (r: Site)
        ensures
            r@ == self@,
    {
        Site {
            id: self.id.clone(),
            name: self.name.clone(),
            url: self.url.clone(),
            keep_awake: self.keep_awake,
            pulse_seconds: self.pulse_seconds,
            frameless: self.frameless,
            default: self.default,
        }
    }
}

// ---------------------------------------------------------------- render mode

/// The render mode used when none (or an unknown one) is configured.
pub const DEFAULT_RENDER_MODE: &'static str = "auto";

pub open spec fn is_render_mode(m: Seq<char>) -> bool {
    m == "auto"@ || m == "smooth"@ || m == "compat"@
}

/// A render mode trimmed and lower-cased if it is then one of auto / smooth /
/// compat, and "auto" otherwise.
pub open spec fn render_mode_of(mode: Seq<char>) -> Seq<char> {
    let m = lower(trim(mode));
    if is_render_mode(m) {
        m
    } else {
        "auto"@
    }
}

/// Normalizes a render mode: unknown values (hand-edited typos among them)
/// fall back to "auto".
pub fn normalize_render_mode(mode: &str) -> (r: String)
    ensures
        r@ == render_mode_of(mode@),
        is_render_mode(r@),
{
    let v = chars_of(mode);
    let t = trim_chars(&v);
    let m = lower_chars(&t);
    let auto = literal("auto");
    let smooth = literal("smooth");
    let compat = literal("compat");
    if chars_eq(&m, &auto) || chars_eq(&m, &smooth) || chars_eq(&m, &compat) {
        string_of(&m)
    } else {
        String::from_str(DEFAULT_RENDER_MODE)
    }
}

/// Normalizing a render mode that was already normalized changes nothing.
pub proof fn lemma_render_mode_idempotent(mode: Seq<char>)
    ensures
        render_mode_of(render_mode_of(mode)) == render_mode_of(mode),
{
    let r = render_mode_of(mode);
    reveal_strlit("auto");
    reveal_strlit("smooth");
    reveal_strlit("compat");
    assert(r.len() > 0 && !crate::text::is_ws(r[0]) && !crate::text::is_ws(r.last()));
    lemma_strip_start_at(r, Strip::Whitespace, 0);
    assert(r.skip(0) =~= r);
    lemma_strip_end_at(r, Strip::Whitespace, r.len() as int);
    assert(r.take(r.len() as int) =~= r);
    assert(lower(r) =~= r);
}

// ---------------------------------------------------------------- ids

/// The character an id keeps in place of `c`: ASCII letters and digits, `-`
/// and `_` stay, anything else becomes `-`.
pub open spec fn id_char(c: char) -> char {
    if is_alnum(c) || c == '-' || c == '_' {
        c
    } else {
        '-'
    }
}

/// An id made safe for a window label: trimmed, every other character turned
/// into `-`, dashes stripped from both ends, lower-cased.
pub open spec fn sanitize(s: Seq<char>) -> Seq<char> {
    lower(strip(trim(s).map_values(|c: char| id_char(c)), Strip::Char('-')))
}

/// A character of a well-formed id.
pub open spec fn is_id_char(c: char) -> bool {
    ('a' <= c <= 'z') || is_digit(c) || c == '-' || c == '_'
}

/// Only lower-case ASCII letters, digits, `-` and `_`, and no `-` at either end.
pub open spec fn is_clean_id(s: Seq<char>) -> bool {
    &&& forall|i: int| 0 <= i < s.len() ==> is_id_char(#[trigger] s[i])
    &&& s.len() > 0 ==> s[0] != '-' && s.last() != '-'
}

/// Every sanitized id is clean.
pub proof fn lemma_sanitize_clean(s: Seq<char>)
    ensures
        is_clean_id(sanitize(s)),
{
    let m = trim(s).map_values(|c: char| id_char(c));
    let t = strip(m, Strip::Char('-'));
    let off = lemma_strip_edges(m, Strip::Char('-'));
    let r = lower(t);
    assert forall|i: int| 0 <= i < r.len() implies is_id_char(#[trigger] r[i]) by {
        assert(t[i] == m[off + i]);
        lemma_lower_char(t[i]);
    }
    if r.len() > 0 {
        lemma_lower_char(t[0]);
        lemma_lower_char(t.last());
    }
}

/// A clean id is left as it is by sanitizing.
proof fn lemma_clean_id_fixed(c: Seq<char>)
    requires
        is_clean_id(c),
    ensures
        sanitize(c) == c,
{
    if c.len() > 0 {
        assert(!crate::text::is_ws(c[0]));
        assert(!crate::text::is_ws(c.last()));
    }
    lemma_strip_start_at(c, Strip::Whitespace, 0);
    assert(c.skip(0) =~= c);
    lemma_strip_end_at(c, Strip::Whitespace, c.len() as int);
    assert(c.take(c.len() as int) =~= c);
    let m = c.map_values(|x: char| id_char(x));
    assert(m =~= c);
    lemma_strip_start_at(c, Strip::Char('-'), 0);
    lemma_strip_end_at(c, Strip::Char('-'), c.len() as int);
    assert(lower(c) =~= c);
}

/// Sanitizing never lengthens an id, and sanitizing again changes nothing.
pub proof fn lemma_sanitize_idempotent(s: Seq<char>)
    ensures
        sanitize(s).len() <= s.len(),
        sanitize(sanitize(s)) == sanitize(s),
{
    lemma_sanitize_clean(s);
    lemma_clean_id_fixed(sanitize(s));
    let t = trim(s);
    let _ = lemma_strip_edges(s, Strip::Whitespace);
    let m = t.map_values(|c: char| id_char(c));
    let _ = lemma_strip_edges(m, Strip::Char('-'));
}

proof fn lemma_lower_char(c: char)
    ensures
        is_alnum(c) || c == '-' || c == '_' ==> is_id_char(lower_char(c)),
        (lower_char(c) == '-') == (c == '-'),
{
    if 'A' <= c <= 'Z' {
        assert((c as u32) + 32 >= 97);
        assert(((c as u32) + 32) as char as u32 == (c as u32) + 32);
    }
}

/// Makes `input` usable as a window label (see `sanitize`).
pub fn sanitize_id(input: &str) -> (r: String)
    ensures
        r@ == sanitize(input@),
        is_clean_id(r@),
{
    let v = chars_of(input);
    let t = trim_chars(&v);
    let mut m: Vec<char> = Vec::new();
    for i in 0..t.len()
        invariant
            m@ =~= t@.take(i as int).map_values(|c: char| id_char(c)),
    {
        let c = t[i];
        let k = if char_is_alnum(c) || c == '-' || c == '_' {
            c
        } else {
            '-'
        };
        m.push(k);
        assert(t@.take(i + 1).map_values(|c: char| id_char(c)) =~= t@.take(i as int).map_values(
            |c: char| id_char(c),
        ).push(id_char(c)));
    }
    assert(t@.take(t.len() as int) =~= t@);
    let d = strip_chars(&m, Strip::Char('-'));
    let l = lower_chars(&d);
    proof {
        lemma_sanitize_clean(input@);
    }
    string_of(&l)
}

pub open spec fn strings_view(v: Seq<String>) -> Seq<Seq<char>> {
    v.map_values(|s: String| s@)
}

/// The stem of an id: `b`, or "site" when `b` is empty.
pub open spec fn id_base(b: Seq<char>) -> Seq<char> {
    if b.len() == 0 {
        "site"@
    } else {
        b
    }
}

/// The `n`-th id tried for stem `b`: the stem itself, then `<stem>-2`, `<stem>-3`, ...
pub open spec fn id_candidate(b: Seq<char>, n: nat) -> Seq<char> {
    if n <= 1 {
        id_base(b)
    } else {
        id_base(b) + "-"@ + dec(n)
    }
}

/// `n` is the first candidate number whose id is not taken yet.
pub open spec fn first_free(b: Seq<char>, used: Seq<Seq<char>>, n: nat) -> bool {
    &&& n >= 1
    &&& !used.contains(id_candidate(b, n))
    &&& forall|m: nat| 1 <= m < n ==> used.contains(#[trigger] id_candidate(b, m))
}

/// The id that `unique_id` hands out for stem `b` when `used` are taken.
pub open spec fn unique_of(b: Seq<char>, used: Seq<Seq<char>>) -> Seq<char> {
    id_candidate(b, choose|n: nat| first_free(b, used, n))
}

proof fn lemma_candidates_distinct(b: Seq<char>, m: nat, n: nat)
    requires
        1 <= m < n,
    ensures
        id_candidate(b, m) != id_candidate(b, n),
{
    reveal_strlit("-");
    reveal_strlit("site");
    lemma_dec_nonempty(n);
    lemma_dec_nonempty(m);
    let p = id_base(b) + "-"@;
    if m >= 2 && id_candidate(b, m) == id_candidate(b, n) {
        let a = id_candidate(b, m);
        let c = id_candidate(b, n);
        assert(a.len() == c.len());
        assert(a.skip(p.len() as int) =~= dec(m));
        assert(c.skip(p.len() as int) =~= dec(n));
        lemma_dec_injective(m, n);
    }
    if m <= 1 {
        assert(id_candidate(b, n).len() > id_candidate(b, m).len());
    }
}

/// Distinct elements all found in `b` are no more than `b` has.
proof fn lemma_distinct_within(a: Seq<Seq<char>>, b: Seq<Seq<char>>)
    requires
        a.no_duplicates(),
        forall|i: int| 0 <= i < a.len() ==> b.contains(#[trigger] a[i]),
    ensures
        a.len() <= b.len(),
    decreases b.len(),
{
    if b.len() == 0 {
        if a.len() > 0 {
            assert(b.contains(a[0]));
        }
    } else {
        let x = b.last();
        let b2 = b.drop_last();
        if a.contains(x) {
            let i = choose|i: int| 0 <= i < a.len() && a[i] == x;
            let a2 = a.remove(i);
            assert forall|j: int| 0 <= j < a2.len() implies b2.contains(#[trigger] a2[j]) by {
                let jj = if j < i {
                    j
                } else {
                    j + 1
                };
                assert(a2[j] == a[jj]);
                assert(a[jj] != x);
                assert(b.contains(a[jj]));
                let k = choose|k: int| 0 <= k < b.len() && b[k] == a[jj];
                assert(k != b.len() - 1);
                assert(b2[k] == a2[j]);
            }
            assert forall|p: int, q: int| 0 <= p < a2.len() && 0 <= q < a2.len() && p != q implies a2[p]
                != a2[q] by {
                let pp = if p < i {
                    p
                } else {
                    p + 1
                };
                let qq = if q < i {
                    q
                } else {
                    q + 1
                };
                assert(a2[p] == a[pp]);
                assert(a2[q] == a[qq]);
            }
            lemma_distinct_within(a2, b2);
        } else {
            assert forall|j: int| 0 <= j < a.len() implies b2.contains(#[trigger] a[j]) by {
                assert(b.contains(a[j]));
                let k = choose|k: int| 0 <= k < b.len() && b[k] == a[j];
                assert(k != b.len() - 1);
                assert(b2[k] == a[j]);
            }
            lemma_distinct_within(a, b2);
        }
    }
}

proof fn lemma_first_free_unique(b: Seq<char>, used: Seq<Seq<char>>, n: nat)
    requires
        first_free(b, used, n),
    ensures
        unique_of(b, used) == id_candidate(b, n),
{
    let k = choose|k: nat| first_free(b, used, k);
    assert(first_free(b, used, k));
    if k < n {
        assert(used.contains(id_candidate(b, k)));
    }
    if n < k {
        assert(used.contains(id_candidate(b, n)));
    }
}

fn contains_string(used: &Vec<String>, s: &Vec<char>) -> (r: bool)
    ensures
        r == strings_view(used@).contains(s@),
{
    for i in 0..used.len()
        invariant
            forall|j: int| 0 <= j < i ==> used@[j]@ != s@,
    {
        let c = chars_of(used[i].as_str());
        if chars_eq(&c, s) {
            assert(strings_view(used@)[i as int] == s@);
            return true;
        }
    }
    proof {
        if strings_view(used@).contains(s@) {
            let j = choose|j: int| 0 <= j < used@.len() && strings_view(used@)[j] == s@;
            assert(used@[j]@ == s@);
        }
    }
    false
}

fn concat_chars(a: &Vec<char>, b: &Vec<char>) -> (r: Vec<char>)
    ensures
        r@ == a@ + b@,
{
    let mut r: Vec<char> = Vec::new();
    for i in 0..a.len()
        invariant
            r@ == a@.take(i as int),
    {
        r.push(a[i]);
        assert(a@.take(i as int).push(a@[i as int]) =~= a@.take(i + 1));
    }
    assert(a@.take(a.len() as int) =~= a@);
    for j in 0..b.len()
        invariant
            r@ == a@ + b@.take(j as int),
    {
        r.push(b[j]);
        assert((a@ + b@.take(j as int)).push(b@[j as int]) =~= a@ + b@.take(j + 1));
    }
    assert(b@.take(b.len() as int) =~= b@);
    r
}

/// Hands out the first id of `<base>`, `<base>-2`, `<base>-3`, ... (with
/// "site" for an empty base) that is not in `used`, and records it there.
pub fn unique_id(base: &str, used: &mut Vec<String>) -> (r: String)
    requires
        old(used).len() < usize::MAX,
    ensures
        r@ == unique_of(base@, strings_view(old(used)@)),
        !strings_view(old(used)@).contains(r@),
        final(used)@ == old(used)@.push(r),
{
    let ghost u = strings_view(used@);
    let given = chars_of(base);
    let b = if given.len() == 0 {
        literal("site")
    } else {
        given
    };
    assert(b@ == id_base(base@));
    let dash = literal("-");
    let mut cand = concat_chars(&b, &Vec::new());
    assert(b@ + Seq::<char>::empty() =~= b@);
    let mut n: u64 = 1;
    let ghost mut tried: Seq<Seq<char>> = Seq::empty();
    while contains_string(used, &cand)
        invariant
            u == strings_view(used@),
            used@.len() < usize::MAX,
            b@ == id_base(base@),
            dash@ == "-"@,
            n >= 1,
            cand@ == id_candidate(base@, n as nat),
            tried.len() == n - 1,
            forall|m: int| 0 <= m < tried.len() ==> #[trigger] tried[m] == id_candidate(base@, (m + 1) as nat),
            tried.no_duplicates(),
            forall|m: int| 0 <= m < tried.len() ==> u.contains(#[trigger] tried[m]),
        decreases u.len() + 1 - n,
    {
        proof {
            let t2 = tried.push(cand@);
            assert forall|p: int, q: int| 0 <= p < t2.len() && 0 <= q < t2.len() && p != q implies t2[p]
                != t2[q] by {
                if p < q {
                    lemma_candidates_distinct(base@, (p + 1) as nat, (q + 1) as nat);
                } else {
                    lemma_candidates_distinct(base@, (q + 1) as nat, (p + 1) as nat);
                }
            }
            assert forall|m: int| 0 <= m < t2.len() implies u.contains(#[trigger] t2[m]) by {
                if m < tried.len() {
                    assert(t2[m] == tried[m]);
                }
            }
            lemma_distinct_within(t2, u);
            tried = t2;
        }
        n = n + 1;
        let digits = dec_chars(n);
        let with_dash = concat_chars(&b, &dash);
        cand = concat_chars(&with_dash, &digits);
    }
    proof {
        assert forall|m: nat| 1 <= m < n implies u.contains(#[trigger] id_candidate(base@, m)) by {
            assert(tried[m - 1] == id_candidate(base@, m));
        }
        assert(first_free(base@, u, n as nat));
        lemma_first_free_unique(base@, u, n as nat);
    }
    let r = string_of(&cand);
    used.push(r.clone());
    r
}

fn literal(s: &str) -> (v: Vec<char>)
    ensures
        v@ == s@,
{
    chars_of(s)
}

// ---------------------------------------------------------------- normalize

/// Pulse intervals above an hour are clamped to an hour.
pub open spec fn clamp_pulse(p: u64) -> u64 {
    if p > 3600 {
        3600
    } else {
        p
    }
}

/// A bare host gets `https://` in front of it; anything naming a scheme is kept.
pub open spec fn with_scheme(raw: Seq<char>) -> Seq<char> {
    if contains_sub(raw, "://"@) {
        raw
    } else {
        "https://"@ + raw
    }
}

/// "第 <n> 项", the 1-based position of site `i` in messages.
pub open spec fn item_label(i: nat) -> Seq<char> {
    "第 "@ + dec(i + 1)
}

pub open spec fn invalid_url_message(i: nat, url: Seq<char>, e: Seq<char>) -> Seq<char> {
    item_label(i) + " 项地址无效（"@ + url + "）："@ + e
}

pub open spec fn scheme_message(i: nat, url: Seq<char>) -> Seq<char> {
    item_label(i) + " 项仅支持 http/https 地址："@ + url
}

pub open spec fn host_message(i: nat, url: Seq<char>) -> Seq<char> {
    item_label(i) + " 项地址缺少主机名："@ + url
}

pub open spec fn blank_host(h: Option<Seq<char>>) -> bool {
    match h {
        Some(h) => trim(h).len() == 0,
        None => true,
    }
}

/// The address that is parsed for site address `url`: trimmed, with
/// `https://` in front of a bare host.
pub open spec fn site_address_spec(url: Seq<char>) -> Seq<char> {
    with_scheme(trim(url))
}

/// Which address is parsed for a site: an address that names its scheme
/// with `://` is kept (trimmed); anything else, a bare host with or without
/// a port, gets `https://` in front of its trimmed text.
pub proof fn lemma_site_address_scheme(u: Seq<char>)
    ensures
        !contains_sub(trim(u), "://"@) ==> site_address_spec(u) == "https://"@ + trim(u),
        contains_sub(trim(u), "://"@) ==> site_address_spec(u) == trim(u),
{
}

/// The address check of site `i` given what parsing `site_address_spec(url)`
/// gave: `Ok(None)` for a blank address, the parsed http/https address with a
/// host, or the message that rejects it.
pub open spec fn check_url_with(
    url: Seq<char>,
    i: nat,
    parsed: Result<UrlPartsView, Seq<char>>,
) -> Result<Option<UrlPartsView>, Seq<char>> {
    let raw = trim(url);
    if raw.len() == 0 {
        Ok(None)
    } else {
        let full = with_scheme(raw);
        match parsed {
            Err(e) => Err(invalid_url_message(i, full, e)),
            Ok(p) => {
                let scheme = lower(p.scheme);
                if scheme != "http"@ && scheme != "https"@ {
                    Err(scheme_message(i, full))
                } else if blank_host(p.host) {
                    Err(host_message(i, full))
                } else {
                    Ok(Some(p))
                }
            },
        }
    }
}

/// The address check of site `i` (see `check_url_with`).
pub open spec fn check_url(url: Seq<char>, i: nat) -> Result<Option<UrlPartsView>, Seq<char>> {
    check_url_with(url, i, url_parse(site_address_spec(url)))
}

/// Site `i` with its address, name and pulse completed (its id untouched).
pub open spec fn completed_site(s: SiteView, i: nat, p: Option<UrlPartsView>) -> SiteView {
    let blank_name = trim(s.name).len() == 0;
    let (url, name) = match p {
        Some(p) => (
            p.href,
            if blank_name {
                match p.host {
                    Some(h) => h,
                    None => "站点"@,
                }
            } else {
                s.name
            },
        ),
        None => (
            s.url,
            if blank_name {
                "站点 "@ + dec(i + 1)
            } else {
                s.name
            },
        ),
    };
    SiteView { url: url, name: trim(name), pulse_seconds: clamp_pulse(s.pulse_seconds), ..s }
}

/// The stem of the id of a completed site `i`, given what parsing its
/// address gave: its sanitized id, or failing that the sanitized host of its
/// address, or "site<n>".
pub open spec fn id_stem_with(c: SiteView, i: nat, reparsed: Result<UrlPartsView, Seq<char>>) -> Seq<char> {
    let base = sanitize(c.id);
    if base.len() > 0 {
        base
    } else {
        let fallback = "site"@ + dec(i + 1);
        let host = match reparsed {
            Ok(u) => match u.host {
                Some(h) => h,
                None => fallback,
            },
            Err(_) => fallback,
        };
        sanitize(host)
    }
}

/// The stem of the id of a completed site `i` (see `id_stem_with`).
pub open spec fn id_stem(c: SiteView, i: nat) -> Seq<char> {
    id_stem_with(c, i, url_parse(c.url))
}

/// Site `i` normalized given the ids handed out before it, what parsing its
/// address gave (`parsed`), and what parsing the completed address gave
/// (`reparsed`).
pub open spec fn site_step_with(
    s: SiteView,
    i: nat,
    used: Seq<Seq<char>>,
    parsed: Result<UrlPartsView, Seq<char>>,
    reparsed: Result<UrlPartsView, Seq<char>>,
) -> Result<SiteView, Seq<char>> {
    match check_url_with(s.url, i, parsed) {
        Err(m) => Err(m),
        Ok(p) => {
            let c = completed_site(s, i, p);
            Ok(SiteView { id: unique_of(id_stem_with(c, i, reparsed), used), ..c })
        },
    }
}

/// The address of site `s` once completed, given what parsing its address
/// gave (meaningful when the check accepts it).
pub open spec fn completed_address(s: SiteView, parsed: Result<UrlPartsView, Seq<char>>) -> Seq<char> {
    if trim(s.url).len() == 0 {
        s.url
    } else {
        match parsed {
            Ok(p) => p.href,
            Err(_) => s.url,
        }
    }
}

proof fn lemma_site_step_with(s: SiteView, i: nat, used: Seq<Seq<char>>)
    ensures
        ({
            let parsed = url_parse(site_address_spec(s.url));
            site_step(s, i, used) == site_step_with(s, i, used, parsed, url_parse(completed_address(s, parsed)))
        }),
{
}

/// Site `i` normalized, given the ids handed out to the sites before it.
pub open spec fn site_step(s: SiteView, i: nat, used: Seq<Seq<char>>) -> Result<SiteView, Seq<char>> {
    match check_url(s.url, i) {
        Err(m) => Err(m),
        Ok(p) => {
            let c = completed_site(s, i, p);
            Ok(SiteView { id: unique_of(id_stem(c, i), used), ..c })
        },
    }
}

pub open spec fn ids_of(sites: Seq<SiteView>) -> Seq<Seq<char>> {
    sites.map_values(|s: SiteView| s.id)
}

/// The first `n` sites normalized in order, and the message of the first
/// site that was rejected, where one was (the sites after it are not reached).
pub open spec fn norm_prefix(sites: Seq<SiteView>, n: nat) -> (Seq<SiteView>, Option<Seq<char>>)
    decreases n,
{
    if n == 0 {
        (Seq::empty(), None)
    } else {
        let (done, err) = norm_prefix(sites, (n - 1) as nat);
        if err is Some {
            (done, err)
        } else {
            match site_step(sites[n - 1], (n - 1) as nat, ids_of(done)) {
                Ok(s) => (done.push(s), None),
                Err(m) => (done, Some(m)),
            }
        }
    }
}

/// Only the first site marked default stays default.
pub open spec fn keep_first_default(sites: Seq<SiteView>) -> Seq<SiteView> {
    Seq::new(
        sites.len(),
        |j: int|
            SiteView {
                default: sites[j].default && forall|k: int| 0 <= k < j ==> !#[trigger] sites[k].default,
                ..sites[j]
            },
    )
}

/// The configuration `normalize` leaves behind, and its error message if it
/// rejected a site. On error the sites before the rejected one are already
/// normalized, the others untouched, and defaults not yet de-duplicated.
pub open spec fn normalize_result(c: AppConfigView) -> (AppConfigView, Option<Seq<char>>) {
    let (done, err) = norm_prefix(c.sites, c.sites.len());
    let rm = render_mode_of(c.render_mode);
    match err {
        None => (AppConfigView { sites: keep_first_default(done), render_mode: rm, ..c }, None),
        Some(m) => (
            AppConfigView { sites: done + c.sites.skip(done.len() as int), render_mode: rm, ..c },
            Some(m),
        ),
    }
}

/// "第 <i+1>" followed by `middle` and `url`.
fn item_message(i: usize, middle: &str, url: &Vec<char>) -> (r: String)
    requires
        i < usize::MAX,
    ensures
        r@ == item_label(i as nat) + middle@ + url@,
{
    let mut v = literal("第 ");
    let n = dec_chars((i + 1) as u64);
    v = concat_chars(&v, &n);
    let m = literal(middle);
    v = concat_chars(&v, &m);
    v = concat_chars(&v, url);
    string_of(&v)
}

/// A parse result as the specifications see it.
pub open spec fn parsed_view(r: Result<UrlParts, String>) -> Result<UrlPartsView, Seq<char>> {
    match r {
        Ok(p) => Ok(p@),
        Err(e) => Err(e@),
    }
}

/// The address that is parsed for a site address (see `site_address_spec`).
pub fn site_address(url: &str) -> (r: String)
    ensures
        r@ == site_address_spec(url@),
{
    let raw = trim_chars(&chars_of(url));
    let sep = literal("://");
    if contains_chars(&raw, &sep) {
        string_of(&raw)
    } else {
        let pre = literal("https://");
        string_of(&concat_chars(&pre, &raw))
    }
}

fn check_site_url(url: &String, i: usize, parsed: Result<UrlParts, String>) -> (r: Result<Option<UrlParts>, String>)
    requires
        i < usize::MAX,
    ensures
        match r {
            Ok(None) => check_url_with(url@, i as nat, parsed_view(parsed)) == Ok::<Option<UrlPartsView>, Seq<char>>(None),
            Ok(Some(p)) => check_url_with(url@, i as nat, parsed_view(parsed)) == Ok::<Option<UrlPartsView>, Seq<char>>(Some(p@)),
            Err(m) => check_url_with(url@, i as nat, parsed_view(parsed)) == Err::<Option<UrlPartsView>, Seq<char>>(m@),
        },
{
    let v = chars_of(url.as_str());
    let raw = trim_chars(&v);
    if raw.len() == 0 {
        return Ok(None);
    }
    let sep = literal("://");
    let full = if contains_chars(&raw, &sep) {
        raw
    } else {
        let pre = literal("https://");
        concat_chars(&pre, &raw)
    };
    match parsed {
        Err(e) => {
            let head = item_message(i, " 项地址无效（", &full);
            let mut msg = chars_of(head.as_str());
            let close = literal("）：");
            msg = concat_chars(&msg, &close);
            let ev = chars_of(e.as_str());
            msg = concat_chars(&msg, &ev);
            Err(string_of(&msg))
        },
        Ok(p) => {
            let sv = chars_of(p.scheme.as_str());
            let scheme = lower_chars(&sv);
            let http = literal("http");
            let https = literal("https");
            if !chars_eq(&scheme, &http) && !chars_eq(&scheme, &https) {
                return Err(item_message(i, " 项仅支持 http/https 地址：", &full));
            }
            let blank = match &p.host {
                Some(h) => {
                    let hv = chars_of(h.as_str());
                    trim_chars(&hv).len() == 0
                },
                None => true,
            };
            if blank {
                return Err(item_message(i, " 项地址缺少主机名：", &full));
            }
            Ok(Some(p))
        },
    }
}

fn is_blank(s: &String) -> (r: bool)
    ensures
        r == (trim(s@).len() == 0),
{
    let v = chars_of(s.as_str());
    trim_chars(&v).len() == 0
}

fn numbered(prefix: &str, i: usize) -> (r: Vec<char>)
    requires
        i < usize::MAX,
    ensures
        r@ == prefix@ + dec((i + 1) as nat),
{
    let p = literal(prefix);
    let n = dec_chars((i + 1) as u64);
    concat_chars(&p, &n)
}

/// Site `i` with its address, name and pulse completed.
fn complete_site(s: &Site, i: usize, p: Option<UrlParts>) -> (r: Site)
    requires
        i < usize::MAX,
    ensures
        r@ == completed_site(s@, i as nat, match p {
            Some(q) => Some(q@),
            None => None,
        }),
{
    let blank_name = is_blank(&s.name);
    let (url, name) = match p {
        Some(q) => {
            let name = if blank_name {
                match q.host {
                    Some(h) => h,
                    None => String::from_str("站点"),
                }
            } else {
                s.name.clone()
            };
            (q.href, name)
        },
        None => {
            let name = if blank_name {
                string_of(&numbered("站点 ", i))
            } else {
                s.name.clone()
            };
            (s.url.clone(), name)
        },
    };
    let name = trim_str(name.as_str());
    let pulse = if s.pulse_seconds > 3600 {
        3600
    } else {
        s.pulse_seconds
    };
    Site {
        id: s.id.clone(),
        name: name,
        url: url,
        keep_awake: s.keep_awake,
        pulse_seconds: pulse,
        frameless: s.frameless,
        default: s.default,
    }
}

fn stem_of(c: &Site, i: usize, reparsed: &Result<UrlParts, String>) -> (r: String)
    requires
        i < usize::MAX,
    ensures
        r@ == id_stem_with(c@, i as nat, parsed_view(*reparsed)),
{
    let base = sanitize_id(c.id.as_str());
    if !base.as_str().is_empty() {
        return base;
    }
    let host = match reparsed {
        Ok(u) => match &u.host {
            Some(h) => h.clone(),
            None => string_of(&numbered("site", i)),
        },
        Err(_) => string_of(&numbered("site", i)),
    };
    sanitize_id(host.as_str())
}

/// Normalizes site `i` given the ids handed out before it (recording its
/// id in `used`), what parsing `site_address(site.url)` gave (`parsed`), and
/// what parsing the completed address gave (`reparsed`; see
/// `completed_address`).
pub fn normalize_site(
    site: &Site,
    i: usize,
    parsed: Result<UrlParts, String>,
    reparsed: Result<UrlParts, String>,
    used: &mut Vec<String>,
) -> (r: Result<Site, String>)
    requires
        i < usize::MAX,
        old(used).len() < usize::MAX,
    ensures
        match r {
            Ok(t) => site_step_with(site@, i as nat, strings_view(old(used)@), parsed_view(parsed), parsed_view(reparsed))
                == Ok::<SiteView, Seq<char>>(t@) && final(used)@ == old(used)@.push(t.id),
            Err(m) => site_step_with(site@, i as nat, strings_view(old(used)@), parsed_view(parsed), parsed_view(reparsed))
                == Err::<SiteView, Seq<char>>(m@) && final(used)@ == old(used)@,
        },
{
    let p = check_site_url(&site.url, i, parsed)?;
    let c = complete_site(site, i, p);
    let stem = stem_of(&c, i, &reparsed);
    let id = unique_id(stem.as_str(), used);
    Ok(Site { id: id, ..c })
}

/// See `completed_address`.
fn completed_address_of(s: &Site, parsed: &Result<UrlParts, String>) -> (r: String)
    ensures
        r@ == completed_address(s@, parsed_view(*parsed)),
{
    if is_blank(&s.url) {
        s.url.clone()
    } else {
        match parsed {
            Ok(p) => p.href.clone(),
            Err(_) => s.url.clone(),
        }
    }
}

/// Checks and completes the configuration: bare hosts get `https://`, only
/// http/https addresses with a host are accepted, blank names are filled in,
/// ids are sanitized and made unique, pulses are clamped to an hour, only the
/// first default site stays default, and the render mode is normalized.
///
/// On a rejected address the error names the site; the sites before it are
/// already normalized and the rest are left as they were.
pub fn normalize(cfg: &mut AppConfig) -> (r: Result<(), String>)
    requires
        old(cfg).sites.len() < usize::MAX,
    ensures
        final(cfg)@ == normalize_result(old(cfg)@).0,
        match r {
            Ok(()) => normalize_result(old(cfg)@).1 is None,
            Err(m) => normalize_result(old(cfg)@).1 == Some(m@),
        },
        r is Ok ==> sites_ok(final(cfg)@.sites),
        is_render_mode(final(cfg)@.render_mode),
{
    let ghost start = cfg@;
    let ghost orig = cfg@.sites;
    cfg.render_mode = normalize_render_mode(cfg.render_mode.as_str());
    let mut used: Vec<String> = Vec::new();
    let n = cfg.sites.len();
    for i in 0..n
        invariant
            n == cfg.sites.len() == orig.len(),
            n < usize::MAX,
            orig == start.sites,
            start == old(cfg)@,
            cfg@.render_mode == render_mode_of(start.render_mode),
            cfg@.last_site_id == start.last_site_id,
            cfg@.ui_theme == start.ui_theme,
            cfg@.dev_tools == start.dev_tools,
            norm_prefix(orig, i as nat) == (cfg@.sites.take(i as int), None::<Seq<char>>),
            cfg@.sites.skip(i as int) == orig.skip(i as int),
            strings_view(used@) == ids_of(cfg@.sites.take(i as int)),
            used.len() == i,
    {
        let ghost before = cfg@.sites;
        proof {
            assert(before[i as int] == orig[i as int]) by {
                assert(before.skip(i as int)[0] == orig.skip(i as int)[0]);
            }
        }
        let address = site_address(cfg.sites[i].url.as_str());
        let parsed = parse_url(address.as_str());
        let target = completed_address_of(&cfg.sites[i], &parsed);
        let reparsed = parse_url(target.as_str());
        proof {
            lemma_site_step_with(cfg@.sites[i as int], i as nat, strings_view(used@));
        }
        let res = normalize_site(&cfg.sites[i], i, parsed, reparsed, &mut used);
        match res {
            Ok(t) => {
                cfg.sites.set(i, t);
                proof {
                    let after = cfg@.sites;
                    assert(after =~= before.update(i as int, t@));
                    assert(after.take(i + 1) =~= before.take(i as int).push(t@));
                    assert(after.skip(i + 1) =~= before.skip(i as int).skip(1));
                    assert(orig.skip(i + 1) =~= orig.skip(i as int).skip(1));
                    assert(ids_of(after.take(i + 1)) =~= ids_of(before.take(i as int)).push(t@.id));
                }
            },
            Err(m) => {
                proof {
                    let done = before.take(i as int);
                    assert(norm_prefix(orig, (i + 1) as nat) == (done, Some(m@)));
                    lemma_norm_prefix_stops(orig, (i + 1) as nat, n as nat);
                    assert(before =~= done + orig.skip(i as int));
                }
                return Err(m);
            },
        }
    }
    let ghost done = cfg@.sites;
    proof {
        assert(done.take(n as int) =~= done);
    }
    let mut has_default = false;
    for j in 0..n
        invariant
            start == old(cfg)@,
            done == norm_prefix(start.sites, start.sites.len()).0,
            norm_prefix(start.sites, start.sites.len()).1 is None,
            n == cfg.sites.len() == done.len(),
            cfg@.render_mode == render_mode_of(start.render_mode),
            cfg@.last_site_id == start.last_site_id,
            cfg@.ui_theme == start.ui_theme,
            cfg@.dev_tools == start.dev_tools,
            cfg@.sites == keep_first_default(done).take(j as int) + done.skip(j as int),
            has_default == exists|k: int| 0 <= k < j && #[trigger] done[k].default,
    {
        let ghost before = cfg@.sites;
        proof {
            assert(before[j as int] == done[j as int]);
        }
        if cfg.sites[j].default {
            if has_default {
                let mut s = cfg.sites[j].duplicate();
                s.default = false;
                cfg.sites.set(j, s);
            } else {
                has_default = true;
            }
        }
        proof {
            let kd = keep_first_default(done);
            assert(kd[j as int].default == (done[j as int].default && !(exists|k: int|
                0 <= k < j && #[trigger] done[k].default)));
            assert(cfg@.sites[j as int] == kd[j as int]);
            assert forall|k: int| 0 <= k < n && k != j implies cfg@.sites[k] == before[k] by {}
            let want = kd.take(j + 1) + done.skip(j + 1);
            let had = kd.take(j as int) + done.skip(j as int);
            assert forall|k: int| 0 <= k < n implies #[trigger] want[k] == cfg@.sites[k] by {
                if k < j {
                    assert(want[k] == kd[k]);
                    assert(had[k] == kd[k]);
                } else if k > j {
                    assert(want[k] == done[k]);
                    assert(had[k] == done[k]);
                }
            }
            assert(cfg@.sites =~= want);
        }
    }
    proof {
        assert(cfg@.sites =~= keep_first_default(done));
        lemma_normalize_ok(start);
    }
    Ok(())
}

/// Once a site is rejected, later prefixes carry the same outcome.
proof fn lemma_norm_prefix_stops(sites: Seq<SiteView>, k: nat, n: nat)
    requires
        k <= n,
        norm_prefix(sites, k).1 is Some,
    ensures
        norm_prefix(sites, n) == norm_prefix(sites, k),
    decreases n - k,
{
    if k < n {
        lemma_norm_prefix_stops(sites, k, (n - 1) as nat);
    }
}

// ---------------------------------------------------------------- laws

/// What every normalized site satisfies: a clean non-empty id, a trimmed
/// non-empty name, and a pulse of at most an hour.
pub open spec fn site_ok(s: SiteView) -> bool {
    &&& is_clean_id(s.id)
    &&& s.id.len() > 0
    &&& s.name.len() > 0
    &&& trim(s.name) == s.name
    &&& s.pulse_seconds <= 3600
}

/// A normalized site list: every site well-formed, ids pairwise distinct, and
/// at most one default site.
pub open spec fn sites_ok(sites: Seq<SiteView>) -> bool {
    &&& forall|i: int| 0 <= i < sites.len() ==> site_ok(#[trigger] sites[i])
    &&& ids_of(sites).no_duplicates()
    &&& forall|i: int, j: int|
        0 <= i < sites.len() && 0 <= j < sites.len() && #[trigger] sites[i].default
            && #[trigger] sites[j].default ==> i == j
}

/// Site `s` normalized into `t` keeps its switches, and its address is kept
/// when blank and otherwise becomes the serialization of the http/https
/// address with a host that it (with `https://` added to a bare host) parses to.
pub open spec fn address_normalized(s: SiteView, t: SiteView) -> bool {
    let raw = trim(s.url);
    &&& t.keep_awake == s.keep_awake
    &&& t.frameless == s.frameless
    &&& raw.len() == 0 ==> t.url == s.url
    &&& raw.len() > 0 ==> (url_parse(with_scheme(raw)) matches Ok(p) && (lower(p.scheme) == "http"@ || lower(
        p.scheme,
    ) == "https"@) && !blank_host(p.host) && t.url == p.href)
}

/// Site `s` at position `i` normalized into `t`: the pulse is clamped to an
/// hour and otherwise kept; a non-blank name is kept (trimmed); a blank name
/// becomes the host of the address, or "站点 <i+1>" without an address.
pub open spec fn completion_ok(s: SiteView, t: SiteView, i: nat) -> bool {
    &&& t.pulse_seconds <= 3600
    &&& s.pulse_seconds <= 3600 ==> t.pulse_seconds == s.pulse_seconds
    &&& s.pulse_seconds > 3600 ==> t.pulse_seconds == 3600
    &&& trim(s.name).len() > 0 ==> t.name == trim(s.name)
    &&& trim(s.name).len() == 0 && trim(s.url).len() == 0 ==> t.name == "站点 "@ + dec(i + 1)
    &&& trim(s.name).len() == 0 && trim(s.url).len() > 0 ==> (url_parse(site_address_spec(s.url)) matches Ok(p)
        && p.host matches Some(h) && t.name == trim(h))
}

/// Some candidate id of stem `b` is free in `used`.
proof fn lemma_first_free_exists(b: Seq<char>, used: Seq<Seq<char>>, k: nat) -> (n: nat)
    requires
        k >= 1,
        forall|m: nat| 1 <= m < k ==> used.contains(#[trigger] id_candidate(b, m)),
    ensures
        first_free(b, used, n),
    decreases used.len() + 1 - k,
{
    let tried = Seq::new((k - 1) as nat, |m: int| id_candidate(b, (m + 1) as nat));
    assert forall|p: int, q: int| 0 <= p < tried.len() && 0 <= q < tried.len() && p != q implies tried[p]
        != tried[q] by {
        if p < q {
            lemma_candidates_distinct(b, (p + 1) as nat, (q + 1) as nat);
        } else {
            lemma_candidates_distinct(b, (q + 1) as nat, (p + 1) as nat);
        }
    }
    assert forall|m: int| 0 <= m < tried.len() implies used.contains(#[trigger] tried[m]) by {
        assert(used.contains(id_candidate(b, (m + 1) as nat)));
    }
    lemma_distinct_within(tried, used);
    if used.contains(id_candidate(b, k)) {
        let t2 = tried.push(id_candidate(b, k));
        assert forall|p: int, q: int| 0 <= p < t2.len() && 0 <= q < t2.len() && p != q implies t2[p]
            != t2[q] by {
            if p < q {
                lemma_candidates_distinct(b, (p + 1) as nat, (q + 1) as nat);
            } else {
                lemma_candidates_distinct(b, (q + 1) as nat, (p + 1) as nat);
            }
        }
        assert forall|m: int| 0 <= m < t2.len() implies used.contains(#[trigger] t2[m]) by {
            if m < tried.len() {
                assert(t2[m] == tried[m]);
            }
        }
        lemma_distinct_within(t2, used);
        lemma_first_free_exists(b, used, k + 1)
    } else {
        k
    }
}

/// The id handed out is free, and clean when the stem is.
proof fn lemma_unique_of(b: Seq<char>, used: Seq<Seq<char>>)
    requires
        is_clean_id(b),
    ensures
        !used.contains(unique_of(b, used)),
        is_clean_id(unique_of(b, used)),
        unique_of(b, used).len() > 0,
{
    let n = lemma_first_free_exists(b, used, 1);
    lemma_first_free_unique(b, used, n);
    reveal_strlit("site");
    reveal_strlit("-");
    let base = id_base(b);
    assert(is_clean_id(base)) by {
        if b.len() == 0 {
            assert(base[0] == 's' && base.last() == 'e');
        }
    }
    if n >= 2 {
        let c = id_candidate(b, n);
        let d = dec(n);
        lemma_dec_nonempty(n);
        assert forall|i: int| 0 <= i < c.len() implies is_id_char(#[trigger] c[i]) by {
            if i < base.len() {
                assert(c[i] == base[i]);
            } else if i == base.len() {
                assert(c[i] == '-');
            } else {
                assert(c[i] == d[i - base.len() - 1]);
            }
        }
        assert(c[0] == base[0]);
        assert(c.last() == d.last());
    }
}

/// The sites normalized so far are well-formed, with distinct ids.
proof fn lemma_norm_prefix_ok(sites: Seq<SiteView>, n: nat)
    requires
        n <= sites.len(),
        norm_prefix(sites, n).1 is None,
    ensures
        norm_prefix(sites, n).0.len() == n,
        forall|i: int| 0 <= i < n ==> site_ok(#[trigger] norm_prefix(sites, n).0[i]),
        ids_of(norm_prefix(sites, n).0).no_duplicates(),
        forall|i: int| 0 <= i < n ==> (#[trigger] norm_prefix(sites, n).0[i]).default == sites[i].default,
        forall|i: int| 0 <= i < n ==> address_normalized(sites[i], #[trigger] norm_prefix(sites, n).0[i]),
        forall|i: int| 0 <= i < n ==> completion_ok(sites[i], #[trigger] norm_prefix(sites, n).0[i], i as nat),
    decreases n,
{
    if n > 0 {
        let k = (n - 1) as nat;
        lemma_norm_prefix_ok(sites, k);
        let done = norm_prefix(sites, k).0;
        let used = ids_of(done);
        let p = check_url(sites[k as int].url, k)->Ok_0;
        let c = completed_site(sites[k as int], k, p);
        let stem = id_stem(c, k);
        assert(is_clean_id(stem)) by {
            lemma_sanitize_clean(c.id);
            let fallback = "site"@ + dec(k + 1);
            let host = match url_parse(c.url) {
                Ok(u) => match u.host {
                    Some(h) => h,
                    None => fallback,
                },
                Err(_) => fallback,
            };
            lemma_sanitize_clean(host);
        }
        lemma_unique_of(stem, used);
        let t = SiteView { id: unique_of(stem, used), ..c };
        let all = done.push(t);
        assert(norm_prefix(sites, n).0 == all);
        lemma_completed_name(sites[k as int], k, p);
        assert(ids_of(all) =~= used.push(t.id));
        assert forall|i: int, j: int| 0 <= i < all.len() && 0 <= j < all.len() && i != j implies ids_of(
            all,
        )[i] != ids_of(all)[j] by {
            if i < k && j < k {
                assert(ids_of(all)[i] == used[i]);
                assert(ids_of(all)[j] == used[j]);
            } else if i == k {
                assert(ids_of(all)[j] == used[j]);
            } else {
                assert(ids_of(all)[i] == used[i]);
            }
        }
        assert forall|i: int| 0 <= i < n implies site_ok(#[trigger] all[i]) by {
            if i < k {
                assert(all[i] == done[i]);
            }
        }
        assert forall|i: int| 0 <= i < n implies (#[trigger] all[i]).default == sites[i].default by {
            if i < k {
                assert(all[i] == done[i]);
            }
        }
        assert forall|i: int| 0 <= i < n implies address_normalized(sites[i], #[trigger] all[i]) by {
            if i < k {
                assert(all[i] == done[i]);
            }
        }
        assert forall|i: int| 0 <= i < n implies completion_ok(sites[i], #[trigger] all[i], i as nat) by {
            if i < k {
                assert(all[i] == done[i]);
            } else {
                let s = sites[k as int];
                if trim(s.name).len() == 0 && trim(s.url).len() == 0 {
                    lemma_numbered_name_trimmed(k);
                }
                lemma_strip_idempotent(s.name, Strip::Whitespace);
            }
        }
    }
}

/// "站点 <i+1>" has no surrounding whitespace.
proof fn lemma_numbered_name_trimmed(i: nat)
    ensures
        trim("站点 "@ + dec(i + 1)) == "站点 "@ + dec(i + 1),
{
    reveal_strlit("站点 ");
    let t = "站点 "@ + dec(i + 1);
    lemma_dec_nonempty(i + 1);
    assert(!crate::text::is_ws(t[0]));
    assert(crate::text::is_digit(t.last())) by {
        assert(t.last() == dec(i + 1).last());
    }
    lemma_strip_start_at(t, Strip::Whitespace, 0);
    assert(t.skip(0) =~= t);
    lemma_strip_end_at(t, Strip::Whitespace, t.len() as int);
    assert(t.take(t.len() as int) =~= t);
}

/// A completed site has a trimmed, non-empty name and a clamped pulse.
proof fn lemma_completed_name(s: SiteView, i: nat, p: Option<UrlPartsView>)
    requires
        match p {
            Some(q) => !blank_host(q.host),
            None => true,
        },
    ensures
        completed_site(s, i, p).name.len() > 0,
        trim(completed_site(s, i, p).name) == completed_site(s, i, p).name,
        completed_site(s, i, p).pulse_seconds <= 3600,
{
    let blank_name = trim(s.name).len() == 0;
    let name = match p {
        Some(q) => if blank_name {
            match q.host {
                Some(h) => h,
                None => "站点"@,
            }
        } else {
            s.name
        },
        None => if blank_name {
            "站点 "@ + dec(i + 1)
        } else {
            s.name
        },
    };
    lemma_strip_idempotent(name, Strip::Whitespace);
    if p is None && blank_name {
        reveal_strlit("站点 ");
        let t = "站点 "@ + dec(i + 1);
        assert(!crate::text::is_ws(t[0]));
        lemma_strip_start_at(t, Strip::Whitespace, 0);
        assert(t.skip(0) =~= t);
        lemma_strip_end_prefix(t, Strip::Whitespace);
    }
}

/// On success every site is well-formed, ids are distinct, only the first
/// site originally marked default stays default, every non-blank address is
/// an http/https address with a host, and the render mode is one of auto /
/// smooth / compat.
pub proof fn lemma_normalize_ok(c: AppConfigView)
    requires
        normalize_result(c).1 is None,
    ensures
        sites_ok(normalize_result(c).0.sites),
        normalize_result(c).0.sites.len() == c.sites.len(),
        forall|i: int|
            0 <= i < c.sites.len() ==> (#[trigger] normalize_result(c).0.sites[i].default <==> (
            c.sites[i].default && forall|k: int| 0 <= k < i ==> !#[trigger] c.sites[k].default)),
        forall|i: int|
            0 <= i < c.sites.len() ==> address_normalized(c.sites[i], #[trigger] normalize_result(c).0.sites[i]),
        forall|i: int|
            0 <= i < c.sites.len() ==> completion_ok(c.sites[i], #[trigger] normalize_result(c).0.sites[i], i as nat),
        is_render_mode(normalize_result(c).0.render_mode),
{
    let n = c.sites.len();
    lemma_norm_prefix_ok(c.sites, n);
    let done = norm_prefix(c.sites, n).0;
    let out = keep_first_default(done);
    assert(normalize_result(c).0.sites == out);
    assert forall|i: int| 0 <= i < out.len() implies site_ok(#[trigger] out[i]) by {
        assert(site_ok(done[i]));
    }
    assert forall|i: int| 0 <= i < c.sites.len() implies address_normalized(c.sites[i], #[trigger] out[i]) by {
        assert(address_normalized(c.sites[i], done[i]));
    }
    assert forall|i: int| 0 <= i < c.sites.len() implies completion_ok(c.sites[i], #[trigger] out[i], i as nat) by {
        assert(completion_ok(c.sites[i], done[i], i as nat));
    }
    assert(ids_of(out) =~= ids_of(done));
    assert forall|i: int| 0 <= i < c.sites.len() implies (#[trigger] out[i].default <==> (
    c.sites[i].default && forall|k: int| 0 <= k < i ==> !#[trigger] c.sites[k].default)) by {
        assert(done[i].default == c.sites[i].default);
        assert(out[i].default == (done[i].default && forall|k: int|
            0 <= k < i ==> !#[trigger] done[k].default));
        if forall|k: int| 0 <= k < i ==> !#[trigger] c.sites[k].default {
            assert forall|k: int| 0 <= k < i implies !#[trigger] done[k].default by {
                assert(!c.sites[k].default);
            }
        }
        if forall|k: int| 0 <= k < i ==> !#[trigger] done[k].default {
            assert forall|k: int| 0 <= k < i implies !#[trigger] c.sites[k].default by {
                assert(!done[k].default);
            }
        }
    }
    assert forall|i: int, j: int|
        0 <= i < out.len() && 0 <= j < out.len() && #[trigger] out[i].default
            && #[trigger] out[j].default implies i == j by {
        if i < j {
            assert(done[i].default);
        } else if j < i {
            assert(done[j].default);
        }
    }
    reveal_strlit("auto");
}

/// Each address that normalizing `c` produced, checked again, parses to the
/// same URL as the address it came from.
pub open spec fn addresses_reparse(c: AppConfigView) -> bool {
    forall|i: int|
        0 <= i < c.sites.len() && trim(c.sites[i].url).len() > 0 ==> url_parse(
            site_address_spec(#[trigger] normalize_result(c).0.sites[i].url),
        ) == url_parse(site_address_spec(c.sites[i].url))
}

/// A well-formed, normalized site `t` at position `k`, among sites whose
/// earlier ids are `used`, is its own normalization.
proof fn lemma_site_step_fixed(s: SiteView, t: SiteView, k: nat, used: Seq<Seq<char>>)
    requires
        site_ok(t),
        address_normalized(s, t),
        trim(s.url).len() > 0 ==> url_parse(site_address_spec(t.url)) == url_parse(site_address_spec(s.url)),
        !used.contains(t.id),
    ensures
        site_step(t, k, used) == Ok::<SiteView, Seq<char>>(t),
{
    let p = check_url(t.url, k)->Ok_0;
    assert(check_url(t.url, k) is Ok);
    let c = completed_site(t, k, p);
    assert(trim(t.name).len() > 0);
    assert(c.url == t.url);
    assert(c.name == t.name);
    lemma_clean_id_fixed(t.id);
    assert(id_stem(c, k) == t.id);
    assert(first_free(t.id, used, 1));
    lemma_first_free_unique(t.id, used, 1);
    assert(SiteView { id: unique_of(id_stem(c, k), used), ..c } == t);
}

/// Normalizing the sites of a normalized configuration goes through without
/// error and gives each site back.
proof fn lemma_norm_prefix_fixed(c: AppConfigView, n: nat)
    requires
        normalize_result(c).1 is None,
        addresses_reparse(c),
        n <= c.sites.len(),
    ensures
        norm_prefix(normalize_result(c).0.sites, n) == (
            normalize_result(c).0.sites.take(n as int),
            None::<Seq<char>>,
        ),
    decreases n,
{
    let o = normalize_result(c).0.sites;
    lemma_normalize_ok(c);
    if n == 0 {
        assert(o.take(0) =~= Seq::<SiteView>::empty());
    } else {
        let k = (n - 1) as nat;
        lemma_norm_prefix_fixed(c, k);
        let used = ids_of(o.take(k as int));
        assert(!used.contains(o[k as int].id)) by {
            if used.contains(o[k as int].id) {
                let j = choose|j: int| 0 <= j < used.len() && used[j] == o[k as int].id;
                assert(ids_of(o)[j] == ids_of(o)[k as int]);
            }
        }
        assert(site_ok(o[k as int]));
        assert(address_normalized(c.sites[k as int], o[k as int]));
        lemma_site_step_fixed(c.sites[k as int], o[k as int], k, used);
        assert(o.take(k as int).push(o[k as int]) =~= o.take(n as int));
    }
}

/// Normalizing a normalized configuration succeeds again and changes
/// nothing, as long as every address it produced reads back as the same URL
/// (see `addresses_reparse`: the URL parser's own invariant).
pub proof fn lemma_normalize_idempotent(c: AppConfigView)
    requires
        normalize_result(c).1 is None,
        addresses_reparse(c),
    ensures
        normalize_result(normalize_result(c).0) == (normalize_result(c).0, None::<Seq<char>>),
{
    let o = normalize_result(c).0;
    lemma_normalize_ok(c);
    lemma_norm_prefix_fixed(c, c.sites.len());
    assert(o.sites.take(o.sites.len() as int) =~= o.sites);
    let kept = keep_first_default(o.sites);
    assert forall|j: int| 0 <= j < o.sites.len() implies #[trigger] kept[j] == o.sites[j] by {
        if o.sites[j].default {
            assert forall|k: int| 0 <= k < j implies !#[trigger] o.sites[k].default by {
                if o.sites[k].default {
                    assert(k == j);
                }
            }
        }
    }
    assert(kept =~= o.sites);
    lemma_render_mode_idempotent(c.render_mode);
}

// ---------------------------------------------------------------- reading config files

pub open spec fn opt_strings_view(v: Seq<Option<String>>) -> Seq<Option<Seq<char>>> {
    v.map_values(|o: Option<String>| opt_str_view(o))
}

/// What is read of a JSON configuration text before it is fully loaded.
pub struct JsonConfigFields {
    /// Per item of the `sites` array, its `url` member when that is a
    /// string; `None` without a `sites` array.
    pub site_urls: Option<Vec<Option<String>>>,
    /// The `render_mode` member, when it is a string.
    pub render_mode: Option<String>,
}

pub struct JsonConfigFieldsView {
    pub site_urls: Option<Seq<Option<Seq<char>>>>,
    pub render_mode: Option<Seq<char>>,
}

pub open spec fn urls_view(urls: Option<Vec<Option<String>>>) -> Option<Seq<Option<Seq<char>>>> {
    match urls {
        Some(v) => Some(opt_strings_view(v@)),
        None => None,
    }
}

impl View for JsonConfigFields {
    type V = JsonConfigFieldsView;

    open spec fn view(&self) -> JsonConfigFieldsView {
        JsonConfigFieldsView { site_urls: urls_view(self.site_urls), render_mode: opt_str_view(self.render_mode) }
    }
}

/// What serde_json reads of `text`: `None` when it is not JSON, otherwise
/// the `sites[*].url` and `render_mode` members (see `JsonConfigFields`).
pub uninterp spec fn json_config_fields(text: Seq<char>) -> Option<JsonConfigFieldsView>;

/// Parses `text` with `serde_json::from_str` into a `serde_json::Value` and
/// reads `sites` (`Value::get`, `Value::as_array`), each item's `url` and
/// `render_mode` (`Value::get`, `Value::as_str`). The JSON grammar is not
/// restated: the contract ties the outcome to `json_config_fields` of the text.
#[verifier::external_body]
fn config_fields_in(text: &str) -> (r: Option<JsonConfigFields>)
    ensures
        match r {
            Some(f) => json_config_fields(text@) == Some(f@),
            None => json_config_fields(text@) is None,
        },
{
    let value: serde_json::Value = serde_json::from_str(text).ok()?;
    let site_urls = value.get("sites").and_then(|s| s.as_array()).map(
        |list| list.iter().map(|item| item.get("url").and_then(|u| u.as_str()).map(|u| u.to_string())).collect(),
    );
    let render_mode = value.get("render_mode").and_then(|m| m.as_str()).map(|m| m.to_string());
    Some(JsonConfigFields { site_urls, render_mode })
}

/// The `sites[*].url` members read of `text`, if it is JSON with a `sites` array.
pub open spec fn json_site_urls(text: Seq<char>) -> Option<Seq<Option<Seq<char>>>> {
    match json_config_fields(text) {
        Some(f) => f.site_urls,
        None => None,
    }
}

/// The `render_mode` member read of `text`, if it is JSON with such a string member.
pub open spec fn json_render_mode(text: Seq<char>) -> Option<Seq<char>> {
    match json_config_fields(text) {
        Some(f) => f.render_mode,
        None => None,
    }
}

/// An address that is present and not blank.
pub open spec fn nonblank_url(o: Option<Seq<char>>) -> bool {
    match o {
        Some(u) => trim(u).len() > 0,
        None => false,
    }
}

/// Whether some site has a non-blank address.
pub open spec fn sites_look_like_ours_spec(urls: Option<Seq<Option<Seq<char>>>>) -> bool {
    match urls {
        None => false,
        Some(list) => has_nonblank(list),
    }
}

/// Whether some address in `list` is present and not blank.
pub open spec fn has_nonblank(list: Seq<Option<Seq<char>>>) -> bool {
    exists|i: int| 0 <= i < list.len() && nonblank_url(#[trigger] list[i])
}

/// Whether some address in `list` is present and not blank.
fn any_nonblank(list: &Vec<Option<String>>) -> (r: bool)
    ensures
        r == has_nonblank(opt_strings_view(list@)),
{
    let ghost lv = opt_strings_view(list@);
    for i in 0..list.len()
        invariant
            lv == opt_strings_view(list@),
            forall|j: int| 0 <= j < i ==> !nonblank_url(#[trigger] lv[j]),
    {
        assert(lv[i as int] == opt_str_view(list@[i as int]));
        if let Some(u) = &list[i] {
            let t = trim_chars(&chars_of(u.as_str()));
            if t.len() > 0 {
                assert(nonblank_url(lv[i as int]));
                return true;
            }
        }
    }
    false
}

/// Whether the `sites[*].url` read from a file (see `json_site_urls`) hold a
/// non-blank address.
pub fn sites_look_like_ours(urls: &Option<Vec<Option<String>>>) -> (r: bool)
    ensures
        r == sites_look_like_ours_spec(urls_view(*urls)),
{
    match urls {
        None => false,
        Some(list) => any_nonblank(list),
    }
}

/// Whether `text` looks like a configuration of this application: a `sites`
/// array with at least one non-blank `url` (used to adopt an old config file).
pub fn looks_like_our_config(text: &str) -> (r: bool)
    ensures
        r == sites_look_like_ours_spec(json_site_urls(text@)),
{
    match config_fields_in(text) {
        Some(f) => sites_look_like_ours(&f.site_urls),
        None => false,
    }
}

/// The render mode a raw `render_mode` member stands for (a missing one is
/// the empty text, hence "auto").
pub fn render_mode_from_field(field: Option<String>) -> (r: String)
    ensures
        r@ == render_mode_of(match opt_str_view(field) {
            Some(m) => m,
            None => Seq::empty(),
        }),
{
    match field {
        Some(m) => {
            let r = normalize_render_mode(m.as_str());
            assert(opt_str_view(field) == Some(m@));
            r
        },
        None => {
            proof {
                reveal_strlit("");
                assert(""@ =~= Seq::<char>::empty());
            }
            normalize_render_mode("")
        },
    }
}

/// The render mode stored in the configuration file `text`, read before the
/// application starts (the file is not otherwise loaded yet).
pub fn render_mode_in_config(text: &str) -> (r: String)
    ensures
        r@ == render_mode_of(match json_render_mode(text@) {
            Some(m) => m,
            None => Seq::empty(),
        }),
{
    let field = match config_fields_in(text) {
        Some(f) => f.render_mode,
        None => None,
    };
    render_mode_from_field(field)
}

/// A folder of the user's configuration root that may hold an older
/// configuration: whether it is the application's own folder, and the text
/// of its `config.json` when it is a folder holding a readable one.
#[derive(Clone, Debug)]
pub struct LegacyCandidate {
    pub is_current: bool,
    pub text: Option<String>,
}

/// Candidate `c` is adopted: another folder whose config looks like ours.
pub open spec fn adoptable(c: LegacyCandidate) -> bool {
    !c.is_current && match c.text {
        Some(t) => sites_look_like_ours_spec(json_site_urls(t@)),
        None => false,
    }
}

/// The first candidate from position `from` on that is adopted, if any
/// (a candidate whose copy fails is skipped by asking again past it).
pub fn first_adoptable(cands: &Vec<LegacyCandidate>, from: usize) -> (r: Option<usize>)
    ensures
        match r {
            Some(k) => from <= k < cands@.len() && adoptable(cands@[k as int]) && forall|j: int|
                from <= j < k ==> !adoptable(#[trigger] cands@[j]),
            None => forall|j: int| from <= j < cands@.len() ==> !adoptable(#[trigger] cands@[j]),
        },
{
    let mut k = from;
    while k < cands.len()
        invariant
            from <= k,
            forall|j: int| from <= j < k && j < cands@.len() ==> !adoptable(#[trigger] cands@[j]),
        decreases cands.len() - k,
    {
        let c = &cands[k];
        let ok = !c.is_current && match &c.text {
            Some(t) => looks_like_our_config(t.as_str()),
            None => false,
        };
        if ok {
            return Some(k);
        }
        k = k + 1;
    }
    None
}

} // verus!
