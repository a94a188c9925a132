//! Linux (WebKitGTK) adaptation: which render path to take from the render
//! mode and the probed environment, and the one-line diagnosis written to the
//! debug log (session, GPUs, DRM nodes, GL variables, CJK font).

use vstd::prelude::*;
use vstd::string::*;

use crate::config::{is_render_mode, strings_view};
use crate::text::{
    chars_of, contains_chars, contains_sub, ends_with, ends_with_chars, is_digit, is_ws,
    lower, lower_chars, push_str, starts_with, starts_with_chars, str_eq, string_of, trim,
    trim_chars, char_is_ws, occurs_at, occurs_at_exec, sub_chars, strip_start, strip_chars, Strip,
    lemma_strip_start_at, dec,
};
use crate::urlparts::opt_str_view;

verus! {

// ---------------------------------------------------------------- joining

/// `parts` joined with `sep` between them (`[String]::join`).
pub open spec fn join(parts: Seq<Seq<char>>, sep: Seq<char>) -> Seq<char>
    decreases parts.len(),
{
    if parts.len() == 0 {
        Seq::empty()
    } else if parts.len() == 1 {
        parts[0]
    } else {
        join(parts.drop_last(), sep) + sep + parts.last()
    }
}

/// `parts.join(sep)`.
pub fn join_strings(parts: &Vec<String>, sep: &str) -> (r: String)
    ensures
        r@ == join(strings_view(parts@), sep@),
{
    let ghost pv = strings_view(parts@);
    let mut out = String::new();
    for i in 0..parts.len()
        invariant
            pv == strings_view(parts@),
            out@ == join(pv.take(i as int), sep@),
    {
        proof {
            assert(pv.take(i + 1).drop_last() =~= pv.take(i as int));
        }
        if i > 0 {
            push_str(&mut out, sep);
        } else {
            assert(pv.take(0) =~= Seq::<Seq<char>>::empty());
        }
        push_str(&mut out, parts[i].as_str());
        proof {
            if i == 0 {
                assert(out@ =~= pv.take(1)[0]);
            }
        }
    }
    assert(pv.take(pv.len() as int) =~= pv);
    out
}

// ---------------------------------------------------------------- sorting

/// Lexicographic order of texts by code point (the order of their UTF-8 bytes).
pub open spec fn lex_le(a: Seq<char>, b: Seq<char>) -> bool
    decreases a.len(),
{
    if a.len() == 0 {
        true
    } else if b.len() == 0 {
        false
    } else if a[0] != b[0] {
        a[0] < b[0]
    } else {
        lex_le(a.drop_first(), b.drop_first())
    }
}

proof fn lemma_lex_total(a: Seq<char>, b: Seq<char>)
    ensures
        lex_le(a, b) || lex_le(b, a),
    decreases a.len(),
{
    if a.len() > 0 && b.len() > 0 && a[0] == b[0] {
        lemma_lex_total(a.drop_first(), b.drop_first());
    }
}

proof fn lemma_lex_trans(a: Seq<char>, b: Seq<char>, c: Seq<char>)
    requires
        lex_le(a, b),
        lex_le(b, c),
    ensures
        lex_le(a, c),
    decreases a.len(),
{
    if a.len() > 0 && b.len() > 0 && c.len() > 0 && a[0] == b[0] && b[0] == c[0] {
        lemma_lex_trans(a.drop_first(), b.drop_first(), c.drop_first());
    }
}

fn lex_le_exec(a: &Vec<char>, b: &Vec<char>) -> (r: bool)
    ensures
        r == lex_le(a@, b@),
{
    let mut i: usize = 0;
    assert(a@.skip(0) =~= a@);
    assert(b@.skip(0) =~= b@);
    while i < a.len() && i < b.len() && a[i] == b[i]
        invariant
            i <= a.len(),
            i <= b.len(),
            lex_le(a@, b@) == lex_le(a@.skip(i as int), b@.skip(i as int)),
        decreases a.len() - i,
    {
        proof {
            assert(a@.skip(i as int).drop_first() =~= a@.skip(i + 1));
            assert(b@.skip(i as int).drop_first() =~= b@.skip(i + 1));
        }
        i = i + 1;
    }
    if i == a.len() {
        return true;
    }
    if i == b.len() {
        return false;
    }
    assert(a@.skip(i as int)[0] == a@[i as int]);
    assert(b@.skip(i as int)[0] == b@[i as int]);
    a[i] < b[i]
}

pub open spec fn sorted(v: Seq<Seq<char>>) -> bool {
    forall|i: int, j: int| 0 <= i < j < v.len() ==> lex_le(#[trigger] v[i], #[trigger] v[j])
}

/// `v` sorted in lexicographic order.
pub fn sort_strings(v: Vec<String>) -> (r: Vec<String>)
    ensures
        sorted(strings_view(r@)),
        strings_view(r@).to_multiset() == strings_view(v@).to_multiset(),
{
    let ghost vv = strings_view(v@);
    let mut r: Vec<String> = Vec::new();
    assert(vv.take(0) =~= Seq::<Seq<char>>::empty());
    assert(strings_view(r@) =~= Seq::<Seq<char>>::empty());
    for i in 0..v.len()
        invariant
            vv == strings_view(v@),
            sorted(strings_view(r@)),
            strings_view(r@).to_multiset() == vv.take(i as int).to_multiset(),
    {
        let x = v[i].clone();
        let xc = chars_of(x.as_str());
        let ghost before = strings_view(r@);
        let mut k: usize = 0;
        while k < r.len() && lex_le_exec(&chars_of(r[k].as_str()), &xc)
            invariant
                before == strings_view(r@),
                k <= r.len(),
                forall|m: int| 0 <= m < k ==> lex_le(#[trigger] before[m], xc@),
            decreases r.len() - k,
        {
            k = k + 1;
        }
        proof {
            if k < r.len() {
                lemma_lex_total(before[k as int], xc@);
            }
        }
        r.insert(k, x);
        proof {
            let after = strings_view(r@);
            assert(after =~= before.insert(k as int, xc@));
            assert forall|p: int, q: int| 0 <= p < q < after.len() implies lex_le(
                #[trigger] after[p],
                #[trigger] after[q],
            ) by {
                if q < k {
                    assert(after[p] == before[p] && after[q] == before[q]);
                } else if q == k {
                    assert(after[p] == before[p]);
                } else if p == k {
                    assert(after[q] == before[q - 1]);
                    assert(lex_le(xc@, before[k as int]));
                    if q - 1 > k {
                        lemma_lex_trans(xc@, before[k as int], before[q - 1]);
                    }
                } else if p < k {
                    assert(after[p] == before[p] && after[q] == before[q - 1]);
                } else {
                    assert(after[p] == before[p - 1] && after[q] == before[q - 1]);
                }
            }
            before.to_multiset_ensures();
            vstd::seq_lib::to_multiset_insert(before, k as int, xc@);
            assert(vv.take(i + 1) =~= vv.take(i as int).push(vv[i as int]));
            vv.take(i as int).to_multiset_ensures();
        }
    }
    assert(vv.take(vv.len() as int) =~= vv);
    r
}

// ---------------------------------------------------------------- WSL

/// A `/proc/version` text of a WSL kernel: it names Microsoft, in any case.
/// (Folding ASCII letters finds the same matches as full lower-casing here:
/// no other character lower-cases into a run of these ASCII letters.)
pub open spec fn is_wsl_spec(version: Seq<char>) -> bool {
    contains_sub(lower(version), "microsoft"@)
}

/// See `is_wsl_spec`.
pub fn is_wsl(version: &str) -> (r: bool)
    ensures
        r == is_wsl_spec(version@),
{
    let v = lower_chars(&chars_of(version));
    let p = chars_of("microsoft");
    contains_chars(&v, &p)
}

// ---------------------------------------------------------------- small probes

/// `/dev/dri` nodes worth reporting: `card*` and `renderD*`, sorted.
pub open spec fn is_dri_node(name: Seq<char>) -> bool {
    starts_with(name, "card"@) || starts_with(name, "renderD"@)
}

/// The `card*` / `renderD*` names among `names`, sorted.
pub fn dri_nodes(names: &Vec<String>) -> (r: Vec<String>)
    ensures
        sorted(strings_view(r@)),
        strings_view(r@).to_multiset() == strings_view(names@).filter(|n: Seq<char>| is_dri_node(n)).to_multiset(),
{
    let ghost nv = strings_view(names@);
    let mut kept: Vec<String> = Vec::new();
    for i in 0..names.len()
        invariant
            nv == strings_view(names@),
            strings_view(kept@) == nv.take(i as int).filter(|n: Seq<char>| is_dri_node(n)),
    {
        let c = chars_of(names[i].as_str());
        let card = starts_with_chars(&c, &chars_of("card"));
        let render = starts_with_chars(&c, &chars_of("renderD"));
        proof {
            nv.take(i as int).lemma_filter_push(nv[i as int], |n: Seq<char>| is_dri_node(n));
            assert(nv.take(i as int).push(nv[i as int]) =~= nv.take(i + 1));
        }
        if card || render {
            kept.push(names[i].clone());
            assert(strings_view(kept@) =~= nv.take(i as int).filter(|n: Seq<char>| is_dri_node(n)).push(nv[i as int]));
        }
    }
    assert(nv.take(nv.len() as int) =~= nv);
    sort_strings(kept)
}

/// Whether any name is a render node (`renderD*`): the machine can use GPU acceleration.
pub fn has_render_node(names: &Vec<String>) -> (r: bool)
    ensures
        r == exists|i: int| 0 <= i < names@.len() && starts_with(#[trigger] names@[i]@, "renderD"@),
{
    let p = chars_of("renderD");
    for i in 0..names.len()
        invariant
            p@ == "renderD"@,
            forall|j: int| 0 <= j < i ==> !starts_with(#[trigger] names@[j]@, "renderD"@),
    {
        if starts_with_chars(&chars_of(names[i].as_str()), &p) {
            return true;
        }
    }
    false
}

/// Whether any file name is a Mesa DRI driver (`*_dri.so`).
pub fn mesa_dri_drivers_present(names: &Vec<String>) -> (r: bool)
    ensures
        r == exists|i: int| 0 <= i < names@.len() && ends_with(#[trigger] names@[i]@, "_dri.so"@),
{
    let p = chars_of("_dri.so");
    for i in 0..names.len()
        invariant
            p@ == "_dri.so"@,
            forall|j: int| 0 <= j < i ==> !ends_with(#[trigger] names@[j]@, "_dri.so"@),
    {
        if ends_with_chars(&chars_of(names[i].as_str()), &p) {
            return true;
        }
    }
    false
}

/// What listing `/dev/dri` gave.
#[derive(Clone, Debug)]
pub enum DriListing {
    /// The entry names.
    Listed(Vec<String>),
    /// `/dev/dri` does not exist.
    Missing,
    /// It exists but could not be read.
    Unreadable,
}

/// GPU acceleration is available (`Some(true)`), certainly not (`Some(false)`:
/// no render node, or no `/dev/dri` at all), or unknown (`None`: unreadable).
pub fn gpu_available(dri: &DriListing) -> (r: Option<bool>)
    ensures
        match dri {
            DriListing::Listed(names) => r == Some(exists|i: int|
                0 <= i < names@.len() && starts_with(#[trigger] names@[i]@, "renderD"@)),
            DriListing::Missing => r == Some(false),
            DriListing::Unreadable => r is None,
        },
{
    match dri {
        DriListing::Listed(names) => Some(has_render_node(names)),
        DriListing::Missing => Some(false),
        DriListing::Unreadable => None,
    }
}

/// The session type: `XDG_SESSION_TYPE` when set and not blank, else guessed
/// from the display variables.
pub open spec fn session_label_spec(xdg: Option<Seq<char>>, wayland: bool, display: bool) -> Seq<char> {
    match xdg {
        Some(s) if trim(s).len() > 0 => s,
        _ => if wayland {
            "wayland"@
        } else if display {
            "x11"@
        } else {
            "无显示（headless?）"@
        },
    }
}

pub fn session_label(xdg: Option<String>, wayland: bool, display: bool) -> (r: String)
    ensures
        r@ == session_label_spec(crate::urlparts::opt_str_view(xdg), wayland, display),
{
    if let Some(s) = xdg {
        let t = trim_chars(&chars_of(s.as_str()));
        if t.len() > 0 {
            return s;
        }
    }
    if wayland {
        String::from_str("wayland")
    } else if display {
        String::from_str("x11")
    } else {
        String::from_str("无显示（headless?）")
    }
}

/// The first value that is set and not blank, or the empty text (the
/// language tag taken from `LC_ALL`, `LC_MESSAGES`, `LC_CTYPE`, `LANG`).
pub open spec fn system_lang_tag_spec(values: Seq<Option<Seq<char>>>) -> Seq<char>
    decreases values.len(),
{
    if values.len() == 0 {
        Seq::empty()
    } else {
        match values[0] {
            Some(v) if trim(v).len() > 0 => v,
            _ => system_lang_tag_spec(values.drop_first()),
        }
    }
}

pub open spec fn opts_view(v: Seq<Option<String>>) -> Seq<Option<Seq<char>>> {
    v.map_values(|o: Option<String>| crate::urlparts::opt_str_view(o))
}

/// See `system_lang_tag_spec`.
pub fn system_lang_tag(values: &Vec<Option<String>>) -> (r: String)
    ensures
        r@ == system_lang_tag_spec(opts_view(values@)),
{
    let ghost vv = opts_view(values@);
    assert(vv.skip(0) =~= vv);
    for i in 0..values.len()
        invariant
            vv == opts_view(values@),
            system_lang_tag_spec(vv) == system_lang_tag_spec(vv.skip(i as int)),
    {
        proof {
            assert(vv.skip(i as int).drop_first() =~= vv.skip(i + 1));
            assert(vv.skip(i as int)[0] == vv[i as int]);
        }
        if let Some(v) = &values[i] {
            let t = trim_chars(&chars_of(v.as_str()));
            if t.len() > 0 {
                return v.clone();
            }
        }
    }
    assert(vv.skip(vv.len() as int) =~= Seq::<Option<Seq<char>>>::empty());
    String::new()
}

// ---------------------------------------------------------------- GPUs

/// DRM card directories: `card<N>` itself, not its connectors (`card<N>-DP-1`).
pub open spec fn is_card_dir(name: Seq<char>) -> bool {
    starts_with(name, "card"@) && !contains_sub(name, "-"@)
}

/// The card directories among `names`, sorted.
pub fn card_dirs(names: &Vec<String>) -> (r: Vec<String>)
    ensures
        sorted(strings_view(r@)),
        strings_view(r@).to_multiset() == strings_view(names@).filter(|n: Seq<char>| is_card_dir(n)).to_multiset(),
{
    let ghost nv = strings_view(names@);
    let mut kept: Vec<String> = Vec::new();
    for i in 0..names.len()
        invariant
            nv == strings_view(names@),
            strings_view(kept@) == nv.take(i as int).filter(|n: Seq<char>| is_card_dir(n)),
    {
        let c = chars_of(names[i].as_str());
        let card = starts_with_chars(&c, &chars_of("card"));
        let dash = contains_chars(&c, &chars_of("-"));
        proof {
            nv.take(i as int).lemma_filter_push(nv[i as int], |n: Seq<char>| is_card_dir(n));
            assert(nv.take(i as int).push(nv[i as int]) =~= nv.take(i + 1));
        }
        if card && !dash {
            kept.push(names[i].clone());
            assert(strings_view(kept@) =~= nv.take(i as int).filter(|n: Seq<char>| is_card_dir(n)).push(nv[i as int]));
        }
    }
    assert(nv.take(nv.len() as int) =~= nv);
    sort_strings(kept)
}

/// Display adapters known by their PCI vendor id.
pub open spec fn vendor_name(id: Seq<char>) -> Option<Seq<char>> {
    if id == "0x8086"@ {
        Some("Intel"@)
    } else if id == "0x1002"@ || id == "0x1022"@ {
        Some("AMD"@)
    } else if id == "0x10de"@ {
        Some("NVIDIA"@)
    } else if id == "0x1af4"@ {
        Some("virtio-gpu"@)
    } else if id == "0x1b36"@ {
        Some("QXL"@)
    } else if id == "0x15ad"@ {
        Some("VMware"@)
    } else if id == "0x80ee"@ {
        Some("VirtualBox"@)
    } else if id == "0x1a03"@ {
        Some("ASPEED(BMC)"@)
    } else if id == "0x102b"@ {
        Some("Matrox(BMC?)"@)
    } else if id == "0x1234"@ {
        Some("QEMU/Bochs"@)
    } else if id == "0x1013"@ {
        Some("Cirrus"@)
    } else {
        None
    }
}

fn vendor_name_exec(id: &str) -> (r: Option<&'static str>)
    ensures
        match r {
            Some(n) => vendor_name(id@) == Some(n@),
            None => vendor_name(id@) is None,
        },
{
    if str_eq(id, "0x8086") {
        Some("Intel")
    } else if str_eq(id, "0x1002") || str_eq(id, "0x1022") {
        Some("AMD")
    } else if str_eq(id, "0x10de") {
        Some("NVIDIA")
    } else if str_eq(id, "0x1af4") {
        Some("virtio-gpu")
    } else if str_eq(id, "0x1b36") {
        Some("QXL")
    } else if str_eq(id, "0x15ad") {
        Some("VMware")
    } else if str_eq(id, "0x80ee") {
        Some("VirtualBox")
    } else if str_eq(id, "0x1a03") {
        Some("ASPEED(BMC)")
    } else if str_eq(id, "0x102b") {
        Some("Matrox(BMC?)")
    } else if str_eq(id, "0x1234") {
        Some("QEMU/Bochs")
    } else if str_eq(id, "0x1013") {
        Some("Cirrus")
    } else {
        None
    }
}

/// The label of a vendor id as read from sysfs (trimmed, lower-cased): its
/// name, or "未知厂商" with the raw id.
pub open spec fn vendor_label_spec(raw: Seq<char>) -> Seq<char> {
    let v = lower(trim(raw));
    match vendor_name(v) {
        Some(n) => n,
        None => if v.len() == 0 {
            "未知厂商"@
        } else {
            "未知厂商 "@ + v
        },
    }
}

/// See `vendor_label_spec`.
pub fn vendor_label(raw: &str) -> (r: String)
    ensures
        r@ == vendor_label_spec(raw@),
{
    let v = lower_chars(&trim_chars(&chars_of(raw)));
    let vs = string_of(&v);
    match vendor_name_exec(vs.as_str()) {
        Some(n) => String::from_str(n),
        None => if v.len() == 0 {
            String::from_str("未知厂商")
        } else {
            let mut s = String::from_str("未知厂商 ");
            s.append(vs.as_str());
            s
        },
    }
}

/// One display adapter as found in sysfs.
#[derive(Clone, Debug)]
pub struct CardInfo {
    /// Directory name, e.g. `card0`.
    pub name: String,
    /// Content of `device/vendor` (empty when unreadable).
    pub vendor: String,
    /// Kernel driver from `device/uevent`.
    pub driver: Option<String>,
}

/// `card0:Intel/i915`, or `card0:Intel` without a known driver.
pub open spec fn card_entry_spec(name: Seq<char>, vendor: Seq<char>, driver: Option<Seq<char>>) -> Seq<char> {
    let head = name + ":"@ + vendor_label_spec(vendor);
    match driver {
        Some(d) => head + "/"@ + d,
        None => head,
    }
}

pub fn card_entry(c: &CardInfo) -> (r: String)
    ensures
        r@ == card_entry_spec(c.name@, c.vendor@, opt_str_view(c.driver)),
{
    let mut s = c.name.clone();
    s.append(":");
    let l = vendor_label(c.vendor.as_str());
    s.append(l.as_str());
    if let Some(d) = &c.driver {
        s.append("/");
        s.append(d.as_str());
    }
    s
}

pub open spec fn cards_entries(cards: Seq<CardInfo>) -> Seq<Seq<char>> {
    cards.map_values(|c: CardInfo| card_entry_spec(c.name@, c.vendor@, opt_str_view(c.driver)))
}

/// The GPU summary of the diagnosis: the adapters joined by commas, or why
/// there is none (`None`: `/sys/class/drm` unreadable).
pub open spec fn drm_gpu_summary_spec(cards: Option<Seq<CardInfo>>) -> Seq<char> {
    match cards {
        None => "未知（读不到 /sys/class/drm）"@,
        Some(cs) => if cs.len() == 0 {
            "未识别（sysfs 无 cardN）"@
        } else {
            join(cards_entries(cs), ","@)
        },
    }
}

/// See `drm_gpu_summary_spec`.
pub fn drm_gpu_summary(cards: &Option<Vec<CardInfo>>) -> (r: String)
    ensures
        r@ == drm_gpu_summary_spec(match cards {
            Some(v) => Some(v@),
            None => None,
        }),
{
    match cards {
        None => String::from_str("未知（读不到 /sys/class/drm）"),
        Some(cs) => {
            if cs.len() == 0 {
                return String::from_str("未识别（sysfs 无 cardN）");
            }
            let mut parts: Vec<String> = Vec::new();
            for i in 0..cs.len()
                invariant
                    strings_view(parts@) =~= cards_entries(cs@.take(i as int)),
            {
                parts.push(card_entry(&cs[i]));
                assert(cards_entries(cs@.take(i + 1)) =~= cards_entries(cs@.take(i as int)).push(
                    card_entry_spec(cs@[i as int].name@, cs@[i as int].vendor@, opt_str_view(cs@[i as int].driver)),
                ));
            }
            assert(cs@.take(cs@.len() as int) =~= cs@);
            join_strings(&parts, ",")
        },
    }
}

// ---------------------------------------------------------------- line scanning

/// Length of the first line of `s` (up to its first newline).
pub open spec fn line_len(s: Seq<char>) -> nat
    decreases s.len(),
{
    if s.len() == 0 || s[0] == '\n' {
        0
    } else {
        1 + line_len(s.drop_first())
    }
}

/// The kernel driver named in a `uevent` text: the value of its first
/// `DRIVER=` line, trimmed, when that is not blank.
pub open spec fn kernel_driver_spec(s: Seq<char>) -> Option<Seq<char>>
    decreases s.len(),
{
    let n = line_len(s);
    let line = s.take(n as int);
    if starts_with(line, "DRIVER="@) {
        let d = trim(line.skip(7));
        if d.len() > 0 {
            Some(d)
        } else {
            None
        }
    } else if n < s.len() {
        kernel_driver_spec(s.skip((n + 1) as int))
    } else {
        None
    }
}

proof fn lemma_line_len(s: Seq<char>)
    ensures
        line_len(s) <= s.len(),
        forall|j: int| 0 <= j < line_len(s) ==> s[j] != '\n',
        line_len(s) < s.len() ==> s[line_len(s) as int] == '\n',
    decreases s.len(),
{
    if s.len() > 0 && s[0] != '\n' {
        lemma_line_len(s.drop_first());
        assert forall|j: int| 0 <= j < line_len(s) implies s[j] != '\n' by {
            if j > 0 {
                assert(s[j] == s.drop_first()[j - 1]);
            }
        }
    }
}

proof fn lemma_line_len_at(s: Seq<char>, n: int)
    requires
        0 <= n <= s.len(),
        forall|j: int| 0 <= j < n ==> s[j] != '\n',
        n == s.len() || s[n] == '\n',
    ensures
        line_len(s) == n,
    decreases n,
{
    if n > 0 {
        let t = s.drop_first();
        assert forall|j: int| 0 <= j < n - 1 implies t[j] != '\n' by {
            assert(t[j] == s[j + 1]);
        }
        if n - 1 < t.len() {
            assert(t[n - 1] == s[n]);
        }
        lemma_line_len_at(t, n - 1);
    }
}

/// See `kernel_driver_spec`.
pub fn kernel_driver_of(text: &str) -> (r: Option<String>)
    ensures
        opt_str_view(r) == kernel_driver_spec(text@),
{
    let v = chars_of(text);
    let key = chars_of("DRIVER=");
    proof {
        reveal_strlit("DRIVER=");
    }
    let n = v.len();
    let mut i: usize = 0;
    assert(v@.skip(0) =~= v@);
    while i <= n
        invariant
            n == v@.len(),
            v@ == text@,
            key@ == "DRIVER="@,
            i <= n,
            kernel_driver_spec(v@) == kernel_driver_spec(v@.skip(i as int)),
        decreases n - i,
    {
        proof {
            reveal_strlit("DRIVER=");
        }
        let ghost rest = v@.skip(i as int);
        let mut e = i;
        while e < n && v[e] != '\n'
            invariant
                i <= e <= n == v@.len(),
                forall|j: int| i <= j < e ==> v@[j] != '\n',
            decreases n - e,
        {
            e = e + 1;
        }
        proof {
            assert forall|j: int| 0 <= j < e - i implies rest[j] != '\n' by {
                assert(rest[j] == v@[i + j]);
            }
            if e < n {
                assert(rest[e - i] == v@[e as int]);
            }
            lemma_line_len_at(rest, e - i);
        }
        let line = sub_chars(&v, i, e);
        assert(line@ =~= rest.take(e - i));
        if starts_with_chars(&line, &key) {
            let val = sub_chars(&line, 7, line.len());
            assert(val@ =~= line@.skip(7));
            let d = trim_chars(&val);
            if d.len() > 0 {
                return Some(string_of(&d));
            } else {
                return None;
            }
        }
        if e == n {
            return None;
        }
        assert(rest.skip(e - i + 1) =~= v@.skip(e + 1));
        i = e + 1;
    }
    None
}

// ---------------------------------------------------------------- version tokens

/// Number of leading whitespace characters of `s`.
pub open spec fn ws_len(s: Seq<char>) -> nat
    decreases s.len(),
{
    if s.len() > 0 && is_ws(s[0]) {
        1 + ws_len(s.drop_first())
    } else {
        0
    }
}

/// Number of leading non-whitespace characters of `s`.
pub open spec fn word_len(s: Seq<char>) -> nat
    decreases s.len(),
{
    if s.len() > 0 && !is_ws(s[0]) {
        1 + word_len(s.drop_first())
    } else {
        0
    }
}

/// A token is a version when, without its leading `v`s, it starts with a
/// digit and holds a dot.
pub open spec fn version_of(token: Seq<char>) -> Option<Seq<char>> {
    let t = strip_start(token, Strip::Char('v'));
    if t.len() > 0 && is_digit(t[0]) && contains_sub(t, "."@) {
        Some(t)
    } else {
        None
    }
}

/// The first whitespace-separated token of `s` that is a version (such as
/// `535.171.04` in the NVIDIA driver version line), without leading `v`s.
pub open spec fn first_version_spec(s: Seq<char>) -> Option<Seq<char>>
    decreases s.len(),
{
    let s1 = s.skip(ws_len(s) as int);
    if s1.len() == 0 || ws_len(s) > s.len() {
        None
    } else {
        let n = word_len(s1);
        if n == 0 || n > s1.len() {
            None
        } else {
            match version_of(s1.take(n as int)) {
                Some(t) => Some(t),
                None => first_version_spec(s1.skip(n as int)),
            }
        }
    }
}

proof fn lemma_run_len(s: Seq<char>, n: int, ws: bool)
    requires
        0 <= n <= s.len(),
        forall|j: int| 0 <= j < n ==> is_ws(#[trigger] s[j]) == ws,
        n == s.len() || is_ws(s[n]) != ws,
    ensures
        ws ==> ws_len(s) == n,
        !ws ==> word_len(s) == n,
    decreases n,
{
    if n > 0 {
        let t = s.drop_first();
        assert forall|j: int| 0 <= j < n - 1 implies is_ws(#[trigger] t[j]) == ws by {
            assert(t[j] == s[j + 1]);
        }
        if n - 1 < t.len() {
            assert(t[n - 1] == s[n]);
        }
        lemma_run_len(t, n - 1, ws);
    }
}

/// See `first_version_spec`.
pub fn first_version_token(text: &str) -> (r: Option<String>)
    ensures
        opt_str_view(r) == first_version_spec(text@),
{
    let v = chars_of(text);
    let dot = chars_of(".");
    let n = v.len();
    let mut i: usize = 0;
    assert(v@.skip(0) =~= v@);
    while i < n
        invariant
            n == v@.len(),
            v@ == text@,
            dot@ == "."@,
            i <= n,
            first_version_spec(v@) == first_version_spec(v@.skip(i as int)),
        decreases n - i,
    {
        let ghost s = v@.skip(i as int);
        let mut a = i;
        while a < n && char_is_ws(v[a])
            invariant
                i <= a <= n == v@.len(),
                forall|j: int| i <= j < a ==> is_ws(#[trigger] v@[j]),
            decreases n - a,
        {
            a = a + 1;
        }
        proof {
            assert forall|j: int| 0 <= j < a - i implies is_ws(#[trigger] s[j]) == true by {
                assert(s[j] == v@[i + j]);
            }
            if a < n {
                assert(s[a - i] == v@[a as int]);
            }
            lemma_run_len(s, a - i, true);
            assert(s.skip(a - i) =~= v@.skip(a as int));
        }
        if a == n {
            proof {
                assert(ws_len(s) == a - i);
                assert(s.skip(ws_len(s) as int).len() == 0);
            }
            return None;
        }
        let ghost s1 = v@.skip(a as int);
        let mut b = a;
        while b < n && !char_is_ws(v[b])
            invariant
                a <= b <= n == v@.len(),
                forall|j: int| a <= j < b ==> !is_ws(#[trigger] v@[j]),
            decreases n - b,
        {
            b = b + 1;
        }
        proof {
            assert forall|j: int| 0 <= j < b - a implies is_ws(#[trigger] s1[j]) == false by {
                assert(s1[j] == v@[a + j]);
            }
            if b < n {
                assert(s1[b - a] == v@[b as int]);
            }
            lemma_run_len(s1, b - a, false);
        }
        let word = sub_chars(&v, a, b);
        assert(word@ =~= s1.take(b - a));
        proof {
            assert(!is_ws(v@[a as int]));
            assert(b > a);
            assert(ws_len(s) == a - i);
            assert(s.skip(ws_len(s) as int) =~= s1);
            assert(word_len(s1) == b - a);
            assert(first_version_spec(s) == match version_of(s1.take(b - a)) {
                Some(t) => Some(t),
                None => first_version_spec(s1.skip(b - a)),
            });
        }
        let t = strip_chars_start(&word, 'v');
        if t.len() > 0 && '0' <= t[0] && t[0] <= '9' && contains_chars(&t, &dot) {
            return Some(string_of(&t));
        }
        assert(s1.skip(b - a) =~= v@.skip(b as int));
        i = b;
    }
    proof {
        assert(v@.skip(n as int) =~= Seq::<char>::empty());
    }
    None
}

/// `trim_start_matches(c)` over characters.
fn strip_chars_start(v: &Vec<char>, c: char) -> (r: Vec<char>)
    ensures
        r@ == strip_start(v@, Strip::Char(c)),
{
    let mut i: usize = 0;
    while i < v.len() && v[i] == c
        invariant
            i <= v.len(),
            forall|j: int| 0 <= j < i ==> crate::text::strips(Strip::Char(c), #[trigger] v@[j]),
        decreases v.len() - i,
    {
        i = i + 1;
    }
    proof {
        lemma_strip_start_at(v@, Strip::Char(c), i as int);
        assert(v@.subrange(i as int, v@.len() as int) =~= v@.skip(i as int));
    }
    sub_chars(v, i, v.len())
}

// ---------------------------------------------------------------- fonts

/// Standard install paths of common CJK fonts, in the order they are tried.
pub open spec fn cjk_font_paths_spec() -> Seq<Seq<char>> {
    seq![
        "/usr/share/fonts/opentype/noto/NotoSansCJK-Regular.ttc"@,
        "/usr/share/fonts/truetype/noto/NotoSansCJK-Regular.ttc"@,
        "/usr/share/fonts/opentype/noto/NotoSerifCJK-Regular.ttc"@,
        "/usr/share/fonts/opentype/source-han-sans/SourceHanSansSC-Regular.otf"@,
        "/usr/share/fonts/truetype/wqy/wqy-microhei.ttc"@,
        "/usr/share/fonts/truetype/arphic/uming.ttc"@,
        "/usr/share/fonts/truetype/droid/DroidSansFallbackFull.ttf"@,
    ]
}

/// The names of the fonts at `cjk_font_paths_spec`.
pub open spec fn cjk_font_names_spec() -> Seq<Seq<char>> {
    seq![
        "Noto Sans CJK"@,
        "Noto Sans CJK"@,
        "Noto Serif CJK"@,
        "Source Han Sans SC"@,
        "WenQuanYi Micro Hei"@,
        "AR PL UMing"@,
        "Droid Sans Fallback"@,
    ]
}

/// The candidate font paths to probe.
pub fn cjk_font_paths() -> (r: Vec<&'static str>)
    ensures
        r@.map_values(|p: &str| p@) == cjk_font_paths_spec(),
{
    let r = vec![
        "/usr/share/fonts/opentype/noto/NotoSansCJK-Regular.ttc",
        "/usr/share/fonts/truetype/noto/NotoSansCJK-Regular.ttc",
        "/usr/share/fonts/opentype/noto/NotoSerifCJK-Regular.ttc",
        "/usr/share/fonts/opentype/source-han-sans/SourceHanSansSC-Regular.otf",
        "/usr/share/fonts/truetype/wqy/wqy-microhei.ttc",
        "/usr/share/fonts/truetype/arphic/uming.ttc",
        "/usr/share/fonts/truetype/droid/DroidSansFallbackFull.ttf",
    ];
    assert(r@.map_values(|p: &str| p@) =~= cjk_font_paths_spec());
    r
}

/// The first candidate font found (`exists[i]` tells whether path `i` exists).
pub open spec fn cjk_font_spec(exists: Seq<bool>) -> Option<Seq<char>> {
    if exists|i: int| 0 <= i < 7 && i < exists.len() && #[trigger] exists[i] {
        Some(cjk_font_names_spec()[choose|i: int|
            0 <= i < 7 && i < exists.len() && exists[i] && forall|j: int| 0 <= j < i ==> !#[trigger] exists[j]])
    } else {
        None
    }
}

/// See `cjk_font_spec`.
pub fn find_cjk_font(exists: &Vec<bool>) -> (r: Option<&'static str>)
    ensures
        match r {
            Some(n) => cjk_font_spec(exists@) == Some(n@),
            None => cjk_font_spec(exists@) is None,
        },
{
    let names = vec![
        "Noto Sans CJK",
        "Noto Sans CJK",
        "Noto Serif CJK",
        "Source Han Sans SC",
        "WenQuanYi Micro Hei",
        "AR PL UMing",
        "Droid Sans Fallback",
    ];
    assert(names@.map_values(|p: &str| p@) =~= cjk_font_names_spec());
    let mut i: usize = 0;
    while i < 7 && i < exists.len()
        invariant
            i <= 7,
            names@.len() == 7,
            names@.map_values(|p: &str| p@) == cjk_font_names_spec(),
            forall|j: int| 0 <= j < i ==> !#[trigger] exists@[j],
        decreases 7 - i,
    {
        if exists[i] {
            proof {
                let k = choose|k: int|
                    0 <= k < 7 && k < exists@.len() && exists@[k] && forall|j: int| 0 <= j < k ==> !#[trigger] exists@[j];
                assert(0 <= k < 7 && k < exists@.len() && exists@[k] && forall|j: int| 0 <= j < k ==> !#[trigger] exists@[j]);
                if k < i {
                    assert(!exists@[k]);
                }
                if i < k {
                    assert(!exists@[i as int]);
                }
                assert(names@.map_values(|p: &str| p@)[i as int] == names@[i as int]@);
            }
            return Some(names[i]);
        }
        i = i + 1;
    }
    None
}

// ---------------------------------------------------------------- render path

/// What was probed of the Linux environment before WebKitGTK starts.
#[derive(Clone, Debug)]
pub struct LinuxProbe {
    /// Configured render mode (auto / smooth / compat).
    pub mode: String,
    /// Running under WSL.
    pub wsl: bool,
    /// Version of the NVIDIA proprietary driver, when loaded.
    pub nvidia: Option<String>,
    /// GPU acceleration available (see `gpu_available`).
    pub gpu: Option<bool>,
    /// `WEBKIT_DISABLE_DMABUF_RENDERER` was already set by the user.
    pub user_dmabuf: bool,
    /// `WEBKIT_FORCE_COMPOSITING_MODE` was already set by the user.
    pub user_force_compositing: bool,
    /// `WEBKIT_DISABLE_COMPOSITING_MODE` was already set by the user.
    pub user_disable_compositing: bool,
    /// Session type (see `session_label`).
    pub session: String,
    /// `card*` / `renderD*` nodes of `/dev/dri`, sorted.
    pub dri_nodes: Vec<String>,
    /// `/dev/dri` exists.
    pub dri_exists: bool,
    /// Display adapters (see `drm_gpu_summary`).
    pub gpu_summary: String,
    /// `/dev/dxg` exists (WSL GPU pass-through).
    pub dxg: bool,
    /// Running in an SSH session.
    pub ssh: bool,
    /// Mesa DRI drivers are installed.
    pub mesa_dri: bool,
    /// A CJK font that was found.
    pub cjk_font: Option<String>,
}

pub struct LinuxProbeView {
    pub mode: Seq<char>,
    pub wsl: bool,
    pub nvidia: Option<Seq<char>>,
    pub gpu: Option<bool>,
    pub user_dmabuf: bool,
    pub user_force_compositing: bool,
    pub user_disable_compositing: bool,
    pub session: Seq<char>,
    pub dri_nodes: Seq<Seq<char>>,
    pub dri_exists: bool,
    pub gpu_summary: Seq<char>,
    pub dxg: bool,
    pub ssh: bool,
    pub mesa_dri: bool,
    pub cjk_font: Option<Seq<char>>,
}

impl View for LinuxProbe {
    type V = LinuxProbeView;

    open spec fn view(&self) -> LinuxProbeView {
        LinuxProbeView {
            mode: self.mode@,
            wsl: self.wsl,
            nvidia: opt_str_view(self.nvidia),
            gpu: self.gpu,
            user_dmabuf: self.user_dmabuf,
            user_force_compositing: self.user_force_compositing,
            user_disable_compositing: self.user_disable_compositing,
            session: self.session@,
            dri_nodes: strings_view(self.dri_nodes@),
            dri_exists: self.dri_exists,
            gpu_summary: self.gpu_summary@,
            dxg: self.dxg,
            ssh: self.ssh,
            mesa_dri: self.mesa_dri,
            cjk_font: opt_str_view(self.cjk_font),
        }
    }
}

/// The environment variables to set before WebKitGTK starts.
#[derive(Clone, Debug)]
pub struct RenderPlan {
    /// Set `WEBKIT_DISABLE_DMABUF_RENDERER=1` (shared-memory, non-accelerated path).
    pub disable_dmabuf: bool,
    /// Set `WEBKIT_FORCE_COMPOSITING_MODE=1`.
    pub force_compositing: bool,
    /// Set `WEBKIT_DISABLE_COMPOSITING_MODE=1`.
    pub disable_compositing: bool,
}

/// No GPU acceleration for certain.
pub open spec fn software_only(p: LinuxProbeView) -> bool {
    p.gpu == Some(false)
}

/// Whether the mode calls for the shared-memory path: always for compat,
/// never for smooth, and in auto mode under WSL, with the NVIDIA driver, or
/// without a GPU.
pub open spec fn wants_shm(p: LinuxProbeView) -> bool {
    if p.mode == "compat"@ {
        true
    } else if p.mode == "smooth"@ {
        false
    } else {
        p.wsl || p.nvidia is Some || software_only(p)
    }
}

pub open spec fn plan_force(p: LinuxProbeView) -> bool {
    p.mode == "smooth"@ && !p.user_dmabuf && !p.user_force_compositing
}

pub open spec fn plan_disable_compositing(p: LinuxProbeView) -> bool {
    !plan_force(p) && p.mode == "auto"@ && software_only(p) && !p.user_disable_compositing
}

/// What the user set is never overridden; otherwise the shared-memory path
/// follows `wants_shm`, smooth forces accelerated compositing, and auto
/// without a GPU turns compositing off.
pub open spec fn render_plan_spec(p: LinuxProbeView) -> (bool, bool, bool) {
    (!p.user_dmabuf && wants_shm(p), plan_force(p), plan_disable_compositing(p))
}

fn probe_wants_shm(p: &LinuxProbe) -> (r: bool)
    ensures
        r == wants_shm(p@),
{
    if str_eq(p.mode.as_str(), "compat") {
        true
    } else if str_eq(p.mode.as_str(), "smooth") {
        false
    } else {
        p.wsl || p.nvidia.is_some() || p.gpu == Some(false)
    }
}

/// The render path for the probed environment (see `render_plan_spec`).
pub fn render_plan(p: &LinuxProbe) -> (r: RenderPlan)
    ensures
        (r.disable_dmabuf, r.force_compositing, r.disable_compositing) == render_plan_spec(p@),
{
    let shm = probe_wants_shm(p);
    let force = str_eq(p.mode.as_str(), "smooth") && !p.user_dmabuf && !p.user_force_compositing;
    let disable_comp = !force && str_eq(p.mode.as_str(), "auto") && p.gpu == Some(false)
        && !p.user_disable_compositing;
    RenderPlan { disable_dmabuf: !p.user_dmabuf && shm, force_compositing: force, disable_compositing: disable_comp }
}

/// Whatever environment is probed, a user's own `WEBKIT_DISABLE_DMABUF_RENDERER`
/// is kept, and compat mode takes the shared-memory path otherwise.
pub proof fn lemma_render_plan_respects_user(p: LinuxProbeView)
    ensures
        p.user_dmabuf ==> !render_plan_spec(p).0 && !render_plan_spec(p).1,
        !p.user_dmabuf && p.mode == "compat"@ ==> render_plan_spec(p).0,
        p.mode == "smooth"@ ==> !render_plan_spec(p).0,
        !(render_plan_spec(p).1 && render_plan_spec(p).2),
{
    reveal_strlit("compat");
    reveal_strlit("smooth");
    assert("smooth"@[0] != "compat"@[0]);
}

/// The render path by mode: compat turns DMA-BUF off and smooth keeps it;
/// auto turns it off under WSL, with the NVIDIA driver, or without a GPU.
/// Smooth forces accelerated compositing, auto without a GPU turns it off;
/// nothing the user set is overridden.
pub proof fn lemma_render_plan_by_mode(p: LinuxProbeView)
    requires
        is_render_mode(p.mode),
    ensures
        p.mode == "compat"@ ==> (render_plan_spec(p).0 <==> !p.user_dmabuf),
        p.mode == "smooth"@ ==> !render_plan_spec(p).0,
        p.mode == "auto"@ ==> (render_plan_spec(p).0 <==> !p.user_dmabuf && (p.wsl || p.nvidia is Some || p.gpu
            == Some(false))),
        render_plan_spec(p).1 <==> p.mode == "smooth"@ && !p.user_dmabuf && !p.user_force_compositing,
        render_plan_spec(p).2 <==> p.mode == "auto"@ && p.gpu == Some(false) && !p.user_disable_compositing,
{
    reveal_strlit("compat");
    reveal_strlit("smooth");
    reveal_strlit("auto");
    assert("smooth"@[0] != "compat"@[0]);
    assert("smooth"@[0] != "auto"@[0]);
    assert("compat"@[0] != "auto"@[0]);
}

// ---------------------------------------------------------------- diagnosis

pub open spec fn decision_text(p: LinuxProbeView) -> Seq<char> {
    if p.user_dmabuf {
        "沿用环境变量 WEBKIT_DISABLE_DMABUF_RENDERER"@
    } else if wants_shm(p) {
        if software_only(p) {
            "共享内存（无 GPU，软件渲染）"@
        } else {
            "共享内存（非加速，兼容性优先）"@
        }
    } else {
        "DMA-BUF（WebKit 默认加速路径）"@
    }
}

pub open spec fn causes(p: LinuxProbeView) -> Seq<Seq<char>> {
    let c1: Seq<Seq<char>> = if p.wsl {
        seq!["WSL"@]
    } else {
        Seq::empty()
    };
    let c2 = match p.nvidia {
        Some(v) => c1.push("NVIDIA 专有驱动 "@ + v),
        None => c1,
    };
    if software_only(p) {
        c2.push("无 GPU（软件渲染）"@)
    } else {
        c2
    }
}

pub open spec fn reason_text(p: LinuxProbeView) -> Seq<char> {
    if p.mode == "compat"@ {
        "按「兼容优先」强制降级"@
    } else if p.mode == "smooth"@ {
        "按「流畅优先」保持加速"@
    } else if p.user_dmabuf {
        "环境变量优先"@
    } else if causes(p).len() == 0 {
        "自动：未发现已知问题环境"@
    } else {
        "自动："@ + join(causes(p), " + "@)
    }
}

/// The render-path line: mode, why, and the path taken.
pub open spec fn render_note(p: LinuxProbeView) -> Seq<char> {
    "渲染模式="@ + p.mode + "（"@ + reason_text(p) + "）→ "@ + decision_text(p)
}

/// The diagnosis names the path the render plan takes: the user's own
/// variable when set; otherwise a shared-memory text exactly when the plan
/// turns DMA-BUF off (the no-GPU one without a GPU), and the DMA-BUF text
/// when it keeps it. It is the end of the first note.
pub proof fn lemma_decision_matches_plan(p: LinuxProbeView, gl: Seq<(Seq<char>, Seq<char>)>)
    ensures
        p.user_dmabuf ==> decision_text(p) == "沿用环境变量 WEBKIT_DISABLE_DMABUF_RENDERER"@,
        !p.user_dmabuf && render_plan_spec(p).0 && software_only(p) ==> decision_text(p)
            == "共享内存（无 GPU，软件渲染）"@,
        !p.user_dmabuf && render_plan_spec(p).0 && !software_only(p) ==> decision_text(p)
            == "共享内存（非加速，兼容性优先）"@,
        !p.user_dmabuf && !render_plan_spec(p).0 ==> decision_text(p) == "DMA-BUF（WebKit 默认加速路径）"@,
        linux_notes_seq(p, gl)[0] == "渲染模式="@ + p.mode + "（"@ + reason_text(p) + "）→ "@ + decision_text(p),
{
    let h = notes_head(p);
    assert(h[0] == render_note(p));
    let mid = notes_mid(p, gl);
    assert(h.len() >= 1);
    assert(mid.len() >= 1 && mid[0] == h[0]);
    let adv = notes_advice(p, gl);
    assert(adv.len() >= 1 && adv[0] == mid[0]);
    assert(linux_notes_seq(p, gl)[0] == adv[0]);
}

pub open spec fn has_render(nodes: Seq<Seq<char>>) -> bool {
    exists|i: int| 0 <= i < nodes.len() && starts_with(#[trigger] nodes[i], "renderD"@)
}

pub open spec fn dri_desc(p: LinuxProbeView) -> Seq<char> {
    if p.dri_nodes.len() == 0 {
        if p.dri_exists {
            "/dev/dri 里没有 card*/renderD* 节点"@
        } else {
            "无 /dev/dri"@
        }
    } else if has_render(p.dri_nodes) {
        join(p.dri_nodes, ","@)
    } else {
        join(p.dri_nodes, ","@) + "（无 renderD* 渲染节点，只有 2D 显示控制器）"@
    }
}

pub open spec fn device_note(p: LinuxProbeView) -> Seq<char> {
    "会话="@ + p.session + "；GPU="@ + p.gpu_summary + "；显示设备="@ + dri_desc(p)
}

pub open spec fn no_gpu_note() -> Seq<char> {
    "本机没有 GPU 加速（/dev/dri 里没有 renderD* 渲染节点）：WebKit 只能软件渲染（llvmpipe），流畅度上限由 CPU 决定。只有 card* 的机器（服务器 BMC 的 ASPEED / Matrox 等 2D 显示芯片）同样属于这种情况；若这台机器本来有显卡，再查内核驱动是否加载、虚拟机是否开了 3D 加速、容器是否映射了 /dev/dri"@
}

pub open spec fn gl_pairs(gl: Seq<(Seq<char>, Seq<char>)>) -> Seq<Seq<char>> {
    gl.map_values(|kv: (Seq<char>, Seq<char>)| kv.0 + "="@ + kv.1)
}

/// The first notes: the render path and what was done about compositing.
pub open spec fn notes_head(p: LinuxProbeView) -> Seq<Seq<char>> {
    let n1 = seq![render_note(p)];
    if plan_force(p) {
        n1.push("已强制开启加速合成（流畅优先）"@)
    } else if plan_disable_compositing(p) {
        n1.push("无 GPU：已关闭加速合成，走纯 CPU 合成（软渲染下通常更稳更快）"@)
    } else {
        n1
    }
}

/// Then the devices, WSL pass-through, SSH and the GL variables.
pub open spec fn notes_mid(p: LinuxProbeView, gl: Seq<(Seq<char>, Seq<char>)>) -> Seq<Seq<char>> {
    let n3 = notes_head(p).push(device_note(p));
    let n4 = if p.dxg {
        n3.push("检测到 /dev/dxg（WSL GPU 直通）"@)
    } else {
        n3
    };
    let n5 = if p.ssh {
        n4.push("检测到 SSH 会话：若通过 X11 转发 / VNC 之类的远程桌面使用，画面必然不如本地流畅"@)
    } else {
        n4
    };
    if gl.len() > 0 {
        n5.push("GL 相关环境变量："@ + join(gl_pairs(gl), " "@))
    } else {
        n5
    }
}

/// Then the advice on smoothness that fits the machine.
pub open spec fn notes_advice(p: LinuxProbeView, gl: Seq<(Seq<char>, Seq<char>)>) -> Seq<Seq<char>> {
    let n6 = notes_mid(p, gl);
    if software_only(p) {
        n6.push(no_gpu_note()).push("可用 WEBKIT_SHOW_FPS=1 启动，在页面右上角看实时帧率做对比"@)
    } else if p.gpu is None {
        n6.push("读不到 /dev/dri（权限问题？），无法判断是否软件渲染"@)
    } else if !p.mesa_dri {
        n6.push("有渲染节点但没找到 mesa 的 DRI 驱动（*_dri.so），GL 仍可能退回 llvmpipe：建议 sudo apt install libgl1-mesa-dri"@)
    } else if p.mode == "auto"@ && wants_shm(p) && !p.user_dmabuf {
        n6.push("若显示正常但觉得卡顿，可在设置页把「渲染模式」改成「流畅优先」后重启对比"@)
    } else {
        n6
    }
}

/// The notes of the diagnosis, in order, ending with the CJK font; `gl` are
/// the GL-related variables set once the render plan is applied.
pub open spec fn linux_notes_seq(p: LinuxProbeView, gl: Seq<(Seq<char>, Seq<char>)>) -> Seq<Seq<char>> {
    notes_advice(p, gl).push(
        match p.cjk_font {
            Some(f) => "中文字体："@ + f,
            None => "未检测到中文字体，中文可能显示为方块，建议：sudo apt install fonts-noto-cjk"@,
        },
    )
}

/// The one-line diagnosis written to the debug log.
pub open spec fn linux_notes_spec(p: LinuxProbeView, gl: Seq<(Seq<char>, Seq<char>)>) -> Seq<char> {
    join(linux_notes_seq(p, gl), "；"@)
}

fn reason_of(p: &LinuxProbe) -> (r: String)
    ensures
        r@ == reason_text(p@),
{
    if str_eq(p.mode.as_str(), "compat") {
        return String::from_str("按「兼容优先」强制降级");
    }
    if str_eq(p.mode.as_str(), "smooth") {
        return String::from_str("按「流畅优先」保持加速");
    }
    if p.user_dmabuf {
        return String::from_str("环境变量优先");
    }
    let mut cs: Vec<String> = Vec::new();
    if p.wsl {
        cs.push(String::from_str("WSL"));
    }
    if let Some(v) = &p.nvidia {
        let mut t = String::from_str("NVIDIA 专有驱动 ");
        t.append(v.as_str());
        cs.push(t);
    }
    if p.gpu == Some(false) {
        cs.push(String::from_str("无 GPU（软件渲染）"));
    }
    assert(strings_view(cs@) =~= causes(p@));
    if cs.len() == 0 {
        String::from_str("自动：未发现已知问题环境")
    } else {
        let mut t = String::from_str("自动：");
        let j = join_strings(&cs, " + ");
        t.append(j.as_str());
        t
    }
}

fn decision_of(p: &LinuxProbe) -> (r: &'static str)
    ensures
        r@ == decision_text(p@),
{
    if p.user_dmabuf {
        "沿用环境变量 WEBKIT_DISABLE_DMABUF_RENDERER"
    } else if probe_wants_shm(p) {
        if p.gpu == Some(false) {
            "共享内存（无 GPU，软件渲染）"
        } else {
            "共享内存（非加速，兼容性优先）"
        }
    } else {
        "DMA-BUF（WebKit 默认加速路径）"
    }
}

fn dri_desc_of(p: &LinuxProbe) -> (r: String)
    ensures
        r@ == dri_desc(p@),
{
    if p.dri_nodes.len() == 0 {
        if p.dri_exists {
            String::from_str("/dev/dri 里没有 card*/renderD* 节点")
        } else {
            String::from_str("无 /dev/dri")
        }
    } else {
        let joined = join_strings(&p.dri_nodes, ",");
        let render = has_render_node(&p.dri_nodes);
        proof {
            let nv = strings_view(p.dri_nodes@);
            if render {
                let i = choose|i: int| 0 <= i < p.dri_nodes@.len() && starts_with(#[trigger] p.dri_nodes@[i]@, "renderD"@);
                assert(nv[i] == p.dri_nodes@[i]@);
            }
            if has_render(nv) {
                let i = choose|i: int| 0 <= i < nv.len() && starts_with(#[trigger] nv[i], "renderD"@);
                assert(nv[i] == p.dri_nodes@[i]@);
            }
        }
        if render {
            joined
        } else {
            let mut t = joined;
            t.append("（无 renderD* 渲染节点，只有 2D 显示控制器）");
            t
        }
    }
}

/// The one-line diagnosis of the Linux environment (see `linux_notes_spec`);
/// `gl` are the GL-related variables (name, value) set after the render plan
/// was applied.
pub fn linux_notes(p: &LinuxProbe, gl: &Vec<(String, String)>) -> (r: String)
    ensures
        r@ == linux_notes_spec(p@, gl@.map_values(|kv: (String, String)| (kv.0@, kv.1@))),
{
    let ghost pv = p@;
    let ghost glv = gl@.map_values(|kv: (String, String)| (kv.0@, kv.1@));
    let mut notes: Vec<String> = Vec::new();
    let reason = reason_of(p);
    let decision = decision_of(p);
    let mut n1 = String::from_str("渲染模式=");
    n1.append(p.mode.as_str());
    n1.append("（");
    n1.append(reason.as_str());
    n1.append("）→ ");
    n1.append(decision);
    notes.push(n1);
    let plan = render_plan(p);
    if plan.force_compositing {
        notes.push(String::from_str("已强制开启加速合成（流畅优先）"));
    } else if plan.disable_compositing {
        notes.push(String::from_str("无 GPU：已关闭加速合成，走纯 CPU 合成（软渲染下通常更稳更快）"));
    }
    assert(strings_view(notes@) =~= notes_head(pv));
    let dd = dri_desc_of(p);
    let mut n3 = String::from_str("会话=");
    n3.append(p.session.as_str());
    n3.append("；GPU=");
    n3.append(p.gpu_summary.as_str());
    n3.append("；显示设备=");
    n3.append(dd.as_str());
    notes.push(n3);
    if p.dxg {
        notes.push(String::from_str("检测到 /dev/dxg（WSL GPU 直通）"));
    }
    if p.ssh {
        notes.push(String::from_str("检测到 SSH 会话：若通过 X11 转发 / VNC 之类的远程桌面使用，画面必然不如本地流畅"));
    }
    if gl.len() > 0 {
        let mut pairs: Vec<String> = Vec::new();
        for i in 0..gl.len()
            invariant
                glv == gl@.map_values(|kv: (String, String)| (kv.0@, kv.1@)),
                strings_view(pairs@) =~= gl_pairs(glv.take(i as int)),
        {
            let mut t = gl[i].0.clone();
            t.append("=");
            t.append(gl[i].1.as_str());
            pairs.push(t);
            assert(gl_pairs(glv.take(i + 1)) =~= gl_pairs(glv.take(i as int)).push(glv[i as int].0 + "="@ + glv[i as int].1));
        }
        assert(glv.take(glv.len() as int) =~= glv);
        let mut t = String::from_str("GL 相关环境变量：");
        let j = join_strings(&pairs, " ");
        t.append(j.as_str());
        notes.push(t);
    }
    assert(strings_view(notes@) =~= notes_mid(pv, glv));
    if p.gpu == Some(false) {
        notes.push(String::from_str("本机没有 GPU 加速（/dev/dri 里没有 renderD* 渲染节点）：WebKit 只能软件渲染（llvmpipe），流畅度上限由 CPU 决定。只有 card* 的机器（服务器 BMC 的 ASPEED / Matrox 等 2D 显示芯片）同样属于这种情况；若这台机器本来有显卡，再查内核驱动是否加载、虚拟机是否开了 3D 加速、容器是否映射了 /dev/dri"));
        notes.push(String::from_str("可用 WEBKIT_SHOW_FPS=1 启动，在页面右上角看实时帧率做对比"));
    } else if p.gpu.is_none() {
        notes.push(String::from_str("读不到 /dev/dri（权限问题？），无法判断是否软件渲染"));
    } else if !p.mesa_dri {
        notes.push(String::from_str("有渲染节点但没找到 mesa 的 DRI 驱动（*_dri.so），GL 仍可能退回 llvmpipe：建议 sudo apt install libgl1-mesa-dri"));
    } else if str_eq(p.mode.as_str(), "auto") && probe_wants_shm(p) && !p.user_dmabuf {
        notes.push(String::from_str("若显示正常但觉得卡顿，可在设置页把「渲染模式」改成「流畅优先」后重启对比"));
    }
    assert(strings_view(notes@) =~= notes_advice(pv, glv));
    match &p.cjk_font {
        Some(f) => {
            let mut t = String::from_str("中文字体：");
            t.append(f.as_str());
            notes.push(t);
        },
        None => notes.push(String::from_str("未检测到中文字体，中文可能显示为方块，建议：sudo apt install fonts-noto-cjk")),
    }
    assert(strings_view(notes@) =~= linux_notes_seq(pv, glv));
    join_strings(&notes, "；")
}

} // verus!
