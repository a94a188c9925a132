//! The decisions of the window shell: window labels, which site to open,
//! the tray menu and what its clicks do, the frameless toggle and its
//! de-bouncing, and the bookkeeping of the last opened site.

use vstd::prelude::*;
use vstd::string::*;

use crate::config::{AppConfig, AppConfigView, Site, SiteView, ids_of, sites_view, strings_view};
use crate::credentials::contains_str;
use crate::text::{chars_of, starts_with, starts_with_chars, str_eq, string_of, sub_chars, trim, trim_str};
use crate::urlparts::opt_str_view;

verus! {

/// Labels of site windows start with this prefix, followed by the site id.
pub const WINDOW_PREFIX: &'static str = "site-";

/// Label of the settings window.
pub const SETTINGS_LABEL: &'static str = "settings";

/// Two toggles of the same window closer than this (in ms) count as one.
pub const TOGGLE_DEBOUNCE_MS: u128 = 400;

/// A held key is a new press again after this long (in ms) without release.
pub const KEY_REPEAT_GUARD_MS: u128 = 1200;

// ---------------------------------------------------------------- labels

pub open spec fn window_label_spec(id: Seq<char>) -> Seq<char> {
    "site-"@ + id
}

/// The label of the window of site `site_id`.
pub fn window_label(site_id: &str) -> (r: String)
    ensures
        r@ == window_label_spec(site_id@),
{
    let mut s = String::from_str(WINDOW_PREFIX);
    s.append(site_id);
    s
}

/// The site id a window label names, if it is a site window's label.
pub open spec fn site_id_of_label_spec(label: Seq<char>) -> Option<Seq<char>> {
    if starts_with(label, "site-"@) {
        Some(label.skip(5))
    } else {
        None
    }
}

/// The site id in a window label (`strip_prefix` of the site prefix).
pub fn site_id_of_label(label: &str) -> (r: Option<String>)
    ensures
        opt_str_view(r) == site_id_of_label_spec(label@),
{
    proof {
        reveal_strlit("site-");
    }
    let v = chars_of(label);
    let p = chars_of(WINDOW_PREFIX);
    if starts_with_chars(&v, &p) {
        let rest = sub_chars(&v, 5, v.len());
        proof {
            assert(v@.subrange(5, v@.len() as int) =~= v@.skip(5));
        }
        Some(string_of(&rest))
    } else {
        None
    }
}

/// The label of a site's window names that site again.
pub proof fn lemma_label_round_trip(id: Seq<char>)
    ensures
        site_id_of_label_spec(window_label_spec(id)) == Some(id),
{
    reveal_strlit("site-");
    let l = window_label_spec(id);
    assert(l.take(5) =~= "site-"@);
    assert(l.skip(5) =~= id);
}

// ---------------------------------------------------------------- sites

/// `i` is the first site with id `id`.
pub open spec fn is_first_site(sites: Seq<SiteView>, id: Seq<char>, i: int) -> bool {
    &&& 0 <= i < sites.len()
    &&& sites[i].id == id
    &&& forall|j: int| 0 <= j < i ==> (#[trigger] sites[j]).id != id
}

pub open spec fn has_site_id(sites: Seq<SiteView>, id: Seq<char>) -> bool {
    exists|i: int| 0 <= i < sites.len() && (#[trigger] sites[i]).id == id
}

/// The first site with id `id`.
pub open spec fn find_site_spec(sites: Seq<SiteView>, id: Seq<char>) -> Option<SiteView> {
    if has_site_id(sites, id) {
        Some(sites[choose|i: int| is_first_site(sites, id, i)])
    } else {
        None
    }
}

proof fn lemma_first_site(sites: Seq<SiteView>, id: Seq<char>, i: int)
    requires
        is_first_site(sites, id, i),
    ensures
        find_site_spec(sites, id) == Some(sites[i]),
{
    assert(sites[i].id == id);
    let k = choose|k: int| is_first_site(sites, id, k);
    assert(is_first_site(sites, id, k));
    if k < i {
        assert(sites[k].id != id);
    }
    if i < k {
        assert(sites[i].id != id);
    }
}

/// Position of the first site with id `id`.
fn site_pos(sites: &Vec<Site>, id: &str) -> (r: Option<usize>)
    ensures
        match r {
            Some(i) => is_first_site(sites_view(sites@), id@, i as int),
            None => !has_site_id(sites_view(sites@), id@),
        },
{
    let ghost sv = sites_view(sites@);
    for i in 0..sites.len()
        invariant
            sv == sites_view(sites@),
            forall|j: int| 0 <= j < i ==> (#[trigger] sv[j]).id != id@,
    {
        if str_eq(sites[i].id.as_str(), id) {
            return Some(i);
        }
    }
    proof {
        if has_site_id(sv, id@) {
            let k = choose|k: int| 0 <= k < sv.len() && (#[trigger] sv[k]).id == id@;
            assert(sv[k].id != id@);
        }
    }
    None
}

/// The site with id `id` (the first one, should ids repeat).
pub fn get_site(sites: &Vec<Site>, id: &str) -> (r: Option<Site>)
    ensures
        match r {
            Some(s) => find_site_spec(sites_view(sites@), id@) == Some(s@),
            None => find_site_spec(sites_view(sites@), id@) is None,
        },
{
    match site_pos(sites, id) {
        Some(i) => {
            proof {
                lemma_first_site(sites_view(sites@), id@, i as int);
            }
            Some(sites[i].duplicate())
        },
        None => None,
    }
}

/// Id of the first site marked default.
pub open spec fn default_site_id(sites: Seq<SiteView>) -> Option<Seq<char>> {
    if exists|i: int| 0 <= i < sites.len() && (#[trigger] sites[i]).default {
        Some(
            sites[choose|i: int|
                0 <= i < sites.len() && sites[i].default && forall|j: int|
                    0 <= j < i ==> !(#[trigger] sites[j]).default].id,
        )
    } else {
        None
    }
}

proof fn lemma_first_default(sites: Seq<SiteView>, i: int)
    requires
        0 <= i < sites.len(),
        sites[i].default,
        forall|j: int| 0 <= j < i ==> !(#[trigger] sites[j]).default,
    ensures
        default_site_id(sites) == Some(sites[i].id),
{
    let k = choose|k: int|
        0 <= k < sites.len() && sites[k].default && forall|j: int| 0 <= j < k ==> !(#[trigger] sites[j]).default;
    assert(0 <= k < sites.len() && sites[k].default && forall|j: int|
        0 <= j < k ==> !(#[trigger] sites[j]).default);
    if k < i {
        assert(!sites[k].default);
    }
    if i < k {
        assert(!sites[i].default);
    }
}

/// The site to connect to on start-up: the first default site, if any.
pub fn startup_site(sites: &Vec<Site>) -> (r: Option<String>)
    ensures
        opt_str_view(r) == default_site_id(sites_view(sites@)),
{
    let ghost sv = sites_view(sites@);
    for i in 0..sites.len()
        invariant
            sv == sites_view(sites@),
            forall|j: int| 0 <= j < i ==> !(#[trigger] sv[j]).default,
    {
        if sites[i].default {
            proof {
                lemma_first_default(sv, i as int);
            }
            return Some(sites[i].id.clone());
        }
    }
    proof {
        if exists|i: int| 0 <= i < sv.len() && (#[trigger] sv[i]).default {
            let k = choose|k: int| 0 <= k < sv.len() && (#[trigger] sv[k]).default;
            assert(!sv[k].default);
        }
    }
    None
}

/// The site `open_site` opens: the requested one, else the default site, else
/// the site opened last, else the first site.
pub open spec fn pick_site_spec(c: AppConfigView, requested: Option<Seq<char>>) -> Option<Seq<char>> {
    match requested {
        Some(id) => Some(id),
        None => match default_site_id(c.sites) {
            Some(id) => Some(id),
            None => match c.last_site_id {
                Some(id) => Some(id),
                None => if c.sites.len() > 0 {
                    Some(c.sites[0].id)
                } else {
                    None
                },
            },
        },
    }
}

/// Which site to open when the settings page asks for one.
pub fn pick_site_id(cfg: &AppConfig, requested: Option<String>) -> (r: Option<String>)
    ensures
        opt_str_view(r) == pick_site_spec(cfg@, opt_str_view(requested)),
{
    if let Some(id) = requested {
        return Some(id);
    }
    if let Some(id) = startup_site(&cfg.sites) {
        return Some(id);
    }
    if let Some(id) = &cfg.last_site_id {
        return Some(id.clone());
    }
    if cfg.sites.len() > 0 {
        Some(cfg.sites[0].id.clone())
    } else {
        None
    }
}

/// Remembers `id` as the site opened last; tells whether that changed the
/// configuration (so that it has to be saved).
pub fn record_last_site(cfg: &mut AppConfig, id: &str) -> (changed: bool)
    ensures
        changed == (old(cfg)@.last_site_id != Some(id@)),
        final(cfg)@ == (AppConfigView { last_site_id: Some(id@), ..old(cfg)@ }),
{
    let same = match &cfg.last_site_id {
        Some(l) => str_eq(l.as_str(), id),
        None => false,
    };
    if !same {
        cfg.last_site_id = Some(String::from_str(id));
    }
    !same
}

/// The configuration with the sites replaced by `sites` and every other
/// setting kept (the settings page only edits the sites).
pub fn with_sites(prev: &AppConfig, sites: Vec<Site>) -> (r: AppConfig)
    ensures
        r@ == (AppConfigView { sites: sites_view(sites@), ..prev@ }),
{
    AppConfig {
        sites: sites,
        last_site_id: prev.last_site_id.clone(),
        ui_theme: prev.ui_theme.clone(),
        render_mode: prev.render_mode.clone(),
        dev_tools: prev.dev_tools,
    }
}

/// The ids of `sites`, in order.
pub fn site_ids(sites: &Vec<Site>) -> (r: Vec<String>)
    ensures
        r@.len() == sites@.len(),
        forall|i: int| 0 <= i < sites@.len() ==> (#[trigger] r@[i])@ == sites@[i].id@,
{
    let mut r: Vec<String> = Vec::new();
    for i in 0..sites.len()
        invariant
            r@.len() == i,
            forall|j: int| 0 <= j < i ==> (#[trigger] r@[j])@ == sites@[j].id@,
    {
        r.push(sites[i].id.clone());
    }
    r
}

pub open spec fn site_not_found() -> Seq<char> {
    "配置里找不到这个站点"@
}

/// Sets the frameless flag of the first site with id `site_id`.
pub fn set_site_frameless(cfg: &mut AppConfig, site_id: &str, frameless: bool) -> (r: Result<(), String>)
    ensures
        match r {
            Ok(()) => has_site_id(old(cfg)@.sites, site_id@) && final(cfg)@ == (AppConfigView {
                sites: old(cfg)@.sites.update(
                    choose|i: int| is_first_site(old(cfg)@.sites, site_id@, i),
                    SiteView {
                        frameless: frameless,
                        ..old(cfg)@.sites[choose|i: int| is_first_site(old(cfg)@.sites, site_id@, i)]
                    },
                ),
                ..old(cfg)@
            }),
            Err(m) => !has_site_id(old(cfg)@.sites, site_id@) && m@ == site_not_found()
                && final(cfg)@ == old(cfg)@,
        },
{
    let ghost before = cfg@;
    match site_pos(&cfg.sites, site_id) {
        Some(i) => {
            proof {
                lemma_first_site(before.sites, site_id@, i as int);
                let k = choose|k: int| is_first_site(before.sites, site_id@, k);
                assert(is_first_site(before.sites, site_id@, k));
                if k < i {
                    assert(before.sites[k].id != site_id@);
                }
                if i < k {
                    assert(before.sites[i as int].id != site_id@);
                }
            }
            let mut s = cfg.sites[i].duplicate();
            s.frameless = frameless;
            cfg.sites.set(i, s);
            assert(cfg@.sites =~= before.sites.update(i as int, SiteView { frameless: frameless, ..before.sites[i as int] }));
            Ok(())
        },
        None => Err(String::from_str("配置里找不到这个站点")),
    }
}

// ---------------------------------------------------------------- frameless toggle

/// Whether a toggle request for window `label` repeats the last one (same
/// window, less than the de-bounce interval ago) and is to be ignored.
pub open spec fn repeats_toggle_spec(last: Option<Seq<char>>, elapsed_ms: u128, label: Seq<char>) -> bool {
    last == Some(label) && elapsed_ms < 400
}

/// See `repeats_toggle_spec`; `elapsed_ms` is the time since the last toggle.
pub fn repeats_toggle(last: &Option<String>, elapsed_ms: u128, label: &str) -> (r: bool)
    ensures
        r == repeats_toggle_spec(opt_str_view(*last), elapsed_ms, label@),
{
    match last {
        Some(l) => str_eq(l.as_str(), label) && elapsed_ms < TOGGLE_DEBOUNCE_MS,
        None => false,
    }
}

pub open spec fn not_site_window() -> Seq<char> {
    "只有 SAS 站点窗口才能切换无边框"@
}

/// The site whose frameless flag a toggle in window `label` flips, with its
/// current flag: only site windows of configured sites can toggle.
pub open spec fn toggle_target_spec(sites: Seq<SiteView>, label: Seq<char>) -> Result<(Seq<char>, bool), Seq<char>> {
    match site_id_of_label_spec(label) {
        None => Err(not_site_window()),
        Some(id) => match find_site_spec(sites, id) {
            None => Err(site_not_found()),
            Some(s) => Ok((id, s.frameless)),
        },
    }
}

/// See `toggle_target_spec`.
pub fn toggle_target(sites: &Vec<Site>, label: &str) -> (r: Result<(String, bool), String>)
    ensures
        match r {
            Ok(t) => toggle_target_spec(sites_view(sites@), label@) == Ok::<(Seq<char>, bool), Seq<char>>((t.0@, t.1)),
            Err(m) => toggle_target_spec(sites_view(sites@), label@) == Err::<(Seq<char>, bool), Seq<char>>(m@),
        },
{
    let id = match site_id_of_label(label) {
        Some(id) => id,
        None => return Err(String::from_str("只有 SAS 站点窗口才能切换无边框")),
    };
    match get_site(sites, id.as_str()) {
        Some(s) => Ok((id, s.frameless)),
        None => Err(String::from_str("配置里找不到这个站点")),
    }
}

/// Which site opens when none is asked for: the first site marked default;
/// without one, the site opened last; without that, the first site.
pub proof fn lemma_pick_order(c: AppConfigView, i: int)
    requires
        0 <= i < c.sites.len(),
    ensures
        c.sites[i].default && (forall|j: int| 0 <= j < i ==> !(#[trigger] c.sites[j]).default) ==> pick_site_spec(
            c,
            None,
        ) == Some(c.sites[i].id),
        (forall|j: int| 0 <= j < c.sites.len() ==> !(#[trigger] c.sites[j]).default) ==> pick_site_spec(c, None)
            == match c.last_site_id {
            Some(l) => Some(l),
            None => Some(c.sites[0].id),
        },
{
    if c.sites[i].default && (forall|j: int| 0 <= j < i ==> !(#[trigger] c.sites[j]).default) {
        lemma_first_default(c.sites, i);
    }
}

/// A toggle of the same window less than 400 ms after the last one is a
/// repeat; another window, or 400 ms or more, is a new toggle.
pub proof fn lemma_toggle_debounce(last: Option<Seq<char>>, elapsed_ms: u128, label: Seq<char>)
    ensures
        last == Some(label) && elapsed_ms < 400 ==> repeats_toggle_spec(last, elapsed_ms, label),
        elapsed_ms >= 400 ==> !repeats_toggle_spec(last, elapsed_ms, label),
        last != Some(label) ==> !repeats_toggle_spec(last, elapsed_ms, label),
{
}

/// What a toggle reads back of a write: once a site's frameless flag is set,
/// a toggle in that site's window finds the site with the flag just set.
pub proof fn lemma_frameless_read_back(sites: Seq<SiteView>, id: Seq<char>, frameless: bool)
    requires
        has_site_id(sites, id),
    ensures
        ({
            let i = choose|i: int| is_first_site(sites, id, i);
            let after = sites.update(i, SiteView { frameless: frameless, ..sites[i] });
            toggle_target_spec(after, window_label_spec(id)) == Ok::<(Seq<char>, bool), Seq<char>>((id, frameless))
        }),
{
    let k0 = choose|k: int| 0 <= k < sites.len() && (#[trigger] sites[k]).id == id;
    lemma_least_site(sites, id, k0);
    let i = choose|i: int| is_first_site(sites, id, i);
    assert(is_first_site(sites, id, i));
    let after = sites.update(i, SiteView { frameless: frameless, ..sites[i] });
    assert forall|j: int| 0 <= j < i implies (#[trigger] after[j]).id != id by {
        assert(after[j] == sites[j]);
    }
    lemma_first_site(after, id, i);
    lemma_label_round_trip(id);
}

proof fn lemma_least_site(sites: Seq<SiteView>, id: Seq<char>, k: int) -> (m: int)
    requires
        0 <= k < sites.len(),
        sites[k].id == id,
    ensures
        is_first_site(sites, id, m),
    decreases k,
{
    if exists|j: int| 0 <= j < k && (#[trigger] sites[j]).id == id {
        let j = choose|j: int| 0 <= j < k && (#[trigger] sites[j]).id == id;
        lemma_least_site(sites, id, j)
    } else {
        k
    }
}

/// The site remembered as opened last is the one opened next when none is
/// asked for and none is marked default.
pub proof fn lemma_recorded_site_is_picked(c: AppConfigView, id: Seq<char>)
    requires
        default_site_id(c.sites) is None,
    ensures
        pick_site_spec(AppConfigView { last_site_id: Some(id), ..c }, None) == Some(id),
{
}

/// The time since a key went down that is still counted as the same press,
/// given when it went down (`at`) and the present time (`now`); a clock that
/// went backwards counts as no time.
pub open spec fn held_for(at: u128, now: u128) -> int {
    if now >= at {
        now - at
    } else {
        0
    }
}

/// Whether a keyboard-hook key-down at time `now` is a new press: not while
/// the key has been held (since `held`) for less than the repeat guard.
pub open spec fn take_press_spec(held: Option<u128>, now: u128) -> bool {
    match held {
        Some(at) => held_for(at, now) >= 1200,
        None => true,
    }
}

/// Takes a key-down at time `now` (milliseconds of a monotonic clock): a new
/// press is recorded as held from `now` and reported; a repeat while the key
/// is held leaves the state as it was.
pub fn take_press(held: &mut Option<u128>, now: u128) -> (r: bool)
    ensures
        r == take_press_spec(*old(held), now),
        r ==> *final(held) == Some(now),
        !r ==> *final(held) == *old(held),
{
    if let Some(at) = *held {
        let elapsed: u128 = if now >= at {
            now - at
        } else {
            0
        };
        if elapsed < KEY_REPEAT_GUARD_MS {
            return false;
        }
    }
    *held = Some(now);
    true
}

/// Takes a key-up: the key is no longer held.
pub fn release_press(held: &mut Option<u128>)
    ensures
        *final(held) is None,
{
    *held = None;
}

/// While a key stays held, the key-downs repeated within the guard after a
/// press never count as another press.
pub proof fn lemma_held_key_fires_once(pressed_at: u128, now: u128)
    requires
        pressed_at <= now < pressed_at + 1200,
    ensures
        !take_press_spec(Some(pressed_at), now),
{
}

/// Whether the window decorations have to change for the frameless flag:
/// a frameless window has none.
pub fn needs_decoration_change(decorated: bool, frameless: bool) -> (r: bool)
    ensures
        r == (decorated == frameless),
{
    decorated == frameless
}

/// Whether an open site window has to be navigated to its site's address:
/// only while no navigation ever happened (its address is still
/// `about:blank`, or cannot be read). A window that moved on, to a sign-in
/// provider for instance, is left where it is.
pub open spec fn needs_navigation_spec(current: Option<Seq<char>>) -> bool {
    match current {
        None => true,
        Some(c) => c == "about:blank"@,
    }
}

/// See `needs_navigation_spec`; `current` is the window's address, if it
/// could be read.
pub fn needs_navigation(current: Option<&str>) -> (r: bool)
    ensures
        r == needs_navigation_spec(
            match current {
                Some(c) => Some(c@),
                None => None,
            },
        ),
{
    match current {
        None => true,
        Some(c) => str_eq(c, "about:blank"),
    }
}

/// Sites that `next` no longer has.
pub open spec fn gone_from(next: Seq<SiteView>) -> spec_fn(SiteView) -> bool {
    |s: SiteView| !has_site_id(next, s.id)
}

/// Sites whose address differs from that of the same site in `prev`.
pub open spec fn moved_from(prev: Seq<SiteView>) -> spec_fn(SiteView) -> bool {
    |s: SiteView|
        match find_site_spec(prev, s.id) {
            Some(p) => p.url != s.url,
            None => false,
        }
}

/// The ids of the sites of `prev` that saving `next` deletes: their windows
/// are closed.
pub fn removed_site_ids(prev: &Vec<Site>, next: &Vec<Site>) -> (r: Vec<String>)
    ensures
        strings_view(r@) == ids_of(sites_view(prev@).filter(gone_from(sites_view(next@)))),
{
    let ghost pv = sites_view(prev@);
    let ghost nv = sites_view(next@);
    let mut r: Vec<String> = Vec::new();
    for i in 0..prev.len()
        invariant
            pv == sites_view(prev@),
            nv == sites_view(next@),
            strings_view(r@) == ids_of(pv.take(i as int).filter(gone_from(nv))),
    {
        let gone = site_pos(next, prev[i].id.as_str()).is_none();
        proof {
            pv.take(i as int).lemma_filter_push(pv[i as int], gone_from(nv));
            assert(pv.take(i as int).push(pv[i as int]) =~= pv.take(i + 1));
        }
        if gone {
            let id = prev[i].id.clone();
            r.push(id);
            proof {
                let before = pv.take(i as int).filter(gone_from(nv));
                assert(gone_from(nv)(pv[i as int]));
                assert(ids_of(before.push(pv[i as int])) =~= ids_of(before).push(pv[i as int].id));
                assert(strings_view(r@) =~= ids_of(before).push(pv[i as int].id));
            }
        }
    }
    assert(pv.take(pv.len() as int) =~= pv);
    r
}

/// The ids of the sites of `next` whose address saving it changes: their
/// open windows are navigated to the new address.
pub fn moved_site_ids(prev: &Vec<Site>, next: &Vec<Site>) -> (r: Vec<String>)
    ensures
        strings_view(r@) == ids_of(sites_view(next@).filter(moved_from(sites_view(prev@)))),
{
    let ghost pv = sites_view(prev@);
    let ghost nv = sites_view(next@);
    let mut r: Vec<String> = Vec::new();
    for i in 0..next.len()
        invariant
            pv == sites_view(prev@),
            nv == sites_view(next@),
            strings_view(r@) == ids_of(nv.take(i as int).filter(moved_from(pv))),
    {
        let moved = match get_site(prev, next[i].id.as_str()) {
            Some(p) => !str_eq(p.url.as_str(), next[i].url.as_str()),
            None => false,
        };
        proof {
            nv.take(i as int).lemma_filter_push(nv[i as int], moved_from(pv));
            assert(nv.take(i as int).push(nv[i as int]) =~= nv.take(i + 1));
        }
        if moved {
            let id = next[i].id.clone();
            r.push(id);
            proof {
                let before = nv.take(i as int).filter(moved_from(pv));
                assert(moved_from(pv)(nv[i as int]));
                assert(ids_of(before.push(nv[i as int])) =~= ids_of(before).push(nv[i as int].id));
                assert(strings_view(r@) =~= ids_of(before).push(nv[i as int].id));
            }
        }
    }
    assert(nv.take(nv.len() as int) =~= nv);
    r
}

// ---------------------------------------------------------------- command line

/// What a command line asks of the application.
#[derive(Clone, Copy, Debug, PartialEq, Eq, Structural)]
pub enum CliAction {
    /// Start, or bring the running instance forward.
    Show,
    /// `--hide`: tuck every window away.
    Hide,
    /// `--quit`: quit the running instance (or just exit when none runs).
    Quit,
}

/// `--quit` wins over `--hide`; without either the application shows up.
pub open spec fn cli_action_spec(args: Seq<Seq<char>>) -> CliAction {
    if args.contains("--quit"@) {
        CliAction::Quit
    } else if args.contains("--hide"@) {
        CliAction::Hide
    } else {
        CliAction::Show
    }
}

/// The action of command line `args` (see `cli_action_spec`).
pub fn cli_action(args: &Vec<String>) -> (r: CliAction)
    ensures
        r == cli_action_spec(strings_view(args@)),
{
    if contains_str(args, "--quit") {
        CliAction::Quit
    } else if contains_str(args, "--hide") {
        CliAction::Hide
    } else {
        CliAction::Show
    }
}

/// What a second launch asks of the running instance.
#[derive(Clone, Copy, Debug, PartialEq, Eq, Structural)]
pub enum RelaunchAction {
    /// `--quit`: quit.
    Quit,
    /// `--hide`: hide every window.
    HideAll,
    /// Bring the window activated last forward.
    Focus,
    /// No window was activated yet: open the settings window.
    OpenSettings,
}

/// A second launch forwards `--quit` / `--hide`; otherwise it only brings the
/// last active window forward, or the settings when there is none.
pub open spec fn relaunch_action_spec(args: Seq<Seq<char>>, active: Seq<char>) -> RelaunchAction {
    match cli_action_spec(args) {
        CliAction::Quit => RelaunchAction::Quit,
        CliAction::Hide => RelaunchAction::HideAll,
        CliAction::Show => if active.len() == 0 {
            RelaunchAction::OpenSettings
        } else {
            RelaunchAction::Focus
        },
    }
}

/// See `relaunch_action_spec`; `active` is the label of the window activated last.
pub fn relaunch_action(args: &Vec<String>, active: &str) -> (r: RelaunchAction)
    ensures
        r == relaunch_action_spec(strings_view(args@), active@),
{
    match cli_action(args) {
        CliAction::Quit => RelaunchAction::Quit,
        CliAction::Hide => RelaunchAction::HideAll,
        CliAction::Show => if active.is_empty() {
            RelaunchAction::OpenSettings
        } else {
            RelaunchAction::Focus
        },
    }
}

// ---------------------------------------------------------------- tray

/// An entry of the tray menu.
#[derive(Clone, Debug)]
pub enum MenuEntry {
    Item { id: String, text: String },
    Check { id: String, text: String, checked: bool, enabled: bool },
    Separator,
}

pub enum MenuEntryView {
    Item { id: Seq<char>, text: Seq<char> },
    Check { id: Seq<char>, text: Seq<char>, checked: bool, enabled: bool },
    Separator,
}

impl View for MenuEntry {
    type V = MenuEntryView;

    open spec fn view(&self) -> MenuEntryView {
        match self {
            MenuEntry::Item { id, text } => MenuEntryView::Item { id: id@, text: text@ },
            MenuEntry::Check { id, text, checked, enabled } => MenuEntryView::Check {
                id: id@,
                text: text@,
                checked: *checked,
                enabled: *enabled,
            },
            MenuEntry::Separator => MenuEntryView::Separator,
        }
    }
}

pub open spec fn entries_view(v: Seq<MenuEntry>) -> Seq<MenuEntryView> {
    v.map_values(|e: MenuEntry| e@)
}

/// The tray entry that opens site `s`; the default site is marked.
pub open spec fn open_entry(s: SiteView) -> MenuEntryView {
    MenuEntryView::Item {
        id: "open:"@ + s.id,
        text: if s.default {
            "打开 "@ + s.name + "（默认）"@
        } else {
            "打开 "@ + s.name
        },
    }
}

/// The configured site the active window belongs to, if any.
pub open spec fn active_site_id(sites: Seq<SiteView>, active: Seq<char>) -> Option<Seq<char>> {
    match site_id_of_label_spec(active) {
        Some(id) => if has_site_id(sites, id) {
            Some(id)
        } else {
            None
        },
        None => None,
    }
}

/// The tray menu for `sites` when window `active` was focused last: one
/// entry per site, then settings, the frameless check of the active site,
/// reload, show all, and quit; without sites only settings and quit.
pub open spec fn tray_menu_spec(sites: Seq<SiteView>, active: Seq<char>) -> Seq<MenuEntryView> {
    let quit = seq![MenuEntryView::Separator, MenuEntryView::Item { id: "quit"@, text: "退出"@ }];
    if sites.len() == 0 {
        seq![MenuEntryView::Item { id: "settings"@, text: "打开设置…"@ }] + quit
    } else {
        let aid = active_site_id(sites, active);
        let checked = match aid {
            Some(id) => match find_site_spec(sites, id) {
                Some(s) => s.frameless,
                None => false,
            },
            None => false,
        };
        sites.map_values(|s: SiteView| open_entry(s)) + seq![
            MenuEntryView::Separator,
            MenuEntryView::Item { id: "settings"@, text: "站点设置"@ },
            MenuEntryView::Check {
                id: "frameless"@,
                text: "无边框窗口（当前环境）"@,
                checked: checked,
                enabled: aid is Some,
            },
            MenuEntryView::Item { id: "reload"@, text: "重新加载当前页面"@ },
            MenuEntryView::Item { id: "showall"@, text: "显示全部窗口"@ },
        ] + quit
    }
}

/// When the active window is that of a configured site, the tray's frameless
/// entry is enabled and checked exactly when that site (its first entry) is
/// frameless.
pub proof fn lemma_tray_frameless_entry(sites: Seq<SiteView>, id: Seq<char>, i: int)
    requires
        is_first_site(sites, id, i),
    ensures
        tray_menu_spec(sites, window_label_spec(id))[sites.len() + 2int] matches MenuEntryView::Check {
            id: eid,
            checked,
            enabled,
            ..
        } && eid == "frameless"@ && checked == sites[i].frameless && enabled,
{
    lemma_label_round_trip(id);
    lemma_first_site(sites, id, i);
    let m = tray_menu_spec(sites, window_label_spec(id));
    let opens = sites.map_values(|s: SiteView| open_entry(s));
    assert(active_site_id(sites, window_label_spec(id)) == Some(id));
    assert(m[sites.len() + 2int] == MenuEntryView::Check {
        id: "frameless"@,
        text: "无边框窗口（当前环境）"@,
        checked: sites[i].frameless,
        enabled: true,
    });
}

/// When the active window belongs to no configured site, the tray's
/// frameless entry is neither checked nor enabled.
pub proof fn lemma_tray_frameless_inactive(sites: Seq<SiteView>, active: Seq<char>)
    requires
        sites.len() > 0,
        forall|k: int| 0 <= k < sites.len() ==> window_label_spec(#[trigger] sites[k].id) != active,
    ensures
        tray_menu_spec(sites, active)[sites.len() + 2int] matches MenuEntryView::Check {
            id: eid,
            checked,
            enabled,
            ..
        } && eid == "frameless"@ && !checked && !enabled,
{
    reveal_strlit("site-");
    if let Some(x) = site_id_of_label_spec(active) {
        if has_site_id(sites, x) {
            let k = choose|k: int| 0 <= k < sites.len() && (#[trigger] sites[k]).id == x;
            assert(active =~= "site-"@ + active.skip(5));
            assert(window_label_spec(sites[k].id) == active);
        }
    }
    assert(active_site_id(sites, active) is None);
    let m = tray_menu_spec(sites, active);
    assert(m[sites.len() + 2int] == MenuEntryView::Check {
        id: "frameless"@,
        text: "无边框窗口（当前环境）"@,
        checked: false,
        enabled: false,
    });
}

fn item(id: &str, text: &str) -> (e: MenuEntry)
    ensures
        e@ == (MenuEntryView::Item { id: id@, text: text@ }),
{
    MenuEntry::Item { id: String::from_str(id), text: String::from_str(text) }
}

fn open_item(s: &Site) -> (e: MenuEntry)
    ensures
        e@ == open_entry(s@),
{
    let mut id = String::from_str("open:");
    id.append(s.id.as_str());
    let mut text = String::from_str("打开 ");
    text.append(s.name.as_str());
    if s.default {
        text.append("（默认）");
    }
    MenuEntry::Item { id: id, text: text }
}

/// Builds the tray menu (see `tray_menu_spec`).
pub fn tray_menu(sites: &Vec<Site>, active: &str) -> (r: Vec<MenuEntry>)
    ensures
        entries_view(r@) == tray_menu_spec(sites_view(sites@), active@),
{
    let ghost sv = sites_view(sites@);
    let mut r: Vec<MenuEntry> = Vec::new();
    if sites.len() == 0 {
        r.push(item("settings", "打开设置…"));
    } else {
        for i in 0..sites.len()
            invariant
                sv == sites_view(sites@),
                entries_view(r@) =~= sv.take(i as int).map_values(|s: SiteView| open_entry(s)),
        {
            r.push(open_item(&sites[i]));
            assert(sv.take(i + 1).map_values(|s: SiteView| open_entry(s)) =~= sv.take(i as int).map_values(
                |s: SiteView| open_entry(s),
            ).push(open_entry(sv[i as int])));
        }
        assert(sv.take(sv.len() as int) =~= sv);
        r.push(MenuEntry::Separator);
        r.push(item("settings", "站点设置"));
        let aid = match site_id_of_label(active) {
            Some(id) => match get_site(sites, id.as_str()) {
                Some(s) => Some(s),
                None => None,
            },
            None => None,
        };
        let (checked, enabled) = match &aid {
            Some(s) => (s.frameless, true),
            None => (false, false),
        };
        r.push(
            MenuEntry::Check {
                id: String::from_str("frameless"),
                text: String::from_str("无边框窗口（当前环境）"),
                checked: checked,
                enabled: enabled,
            },
        );
        r.push(item("reload", "重新加载当前页面"));
        r.push(item("showall", "显示全部窗口"));
    }
    r.push(MenuEntry::Separator);
    r.push(item("quit", "退出"));
    assert(entries_view(r@) =~= tray_menu_spec(sv, active@));
    r
}

/// What a menu entry id asks for.
#[derive(Clone, Debug)]
pub enum MenuAction {
    OpenSite(String),
    Settings,
    Frameless,
    Reload,
    ShowAll,
    Quit,
    Ignore,
}

pub enum MenuActionView {
    OpenSite(Seq<char>),
    Settings,
    Frameless,
    Reload,
    ShowAll,
    Quit,
    Ignore,
}

impl View for MenuAction {
    type V = MenuActionView;

    open spec fn view(&self) -> MenuActionView {
        match self {
            MenuAction::OpenSite(id) => MenuActionView::OpenSite(id@),
            MenuAction::Settings => MenuActionView::Settings,
            MenuAction::Frameless => MenuActionView::Frameless,
            MenuAction::Reload => MenuActionView::Reload,
            MenuAction::ShowAll => MenuActionView::ShowAll,
            MenuAction::Quit => MenuActionView::Quit,
            MenuAction::Ignore => MenuActionView::Ignore,
        }
    }
}

pub open spec fn menu_action_spec(id: Seq<char>) -> MenuActionView {
    if starts_with(id, "open:"@) {
        MenuActionView::OpenSite(id.skip(5))
    } else if id == "settings"@ {
        MenuActionView::Settings
    } else if id == "frameless"@ {
        MenuActionView::Frameless
    } else if id == "reload"@ {
        MenuActionView::Reload
    } else if id == "showall"@ {
        MenuActionView::ShowAll
    } else if id == "quit"@ {
        MenuActionView::Quit
    } else {
        MenuActionView::Ignore
    }
}

/// The action of the tray menu entry `id`.
pub fn menu_action(id: &str) -> (r: MenuAction)
    ensures
        r@ == menu_action_spec(id@),
{
    proof {
        reveal_strlit("open:");
    }
    let v = chars_of(id);
    let p = chars_of("open:");
    if starts_with_chars(&v, &p) {
        let rest = sub_chars(&v, 5, v.len());
        assert(v@.subrange(5, v@.len() as int) =~= v@.skip(5));
        return MenuAction::OpenSite(string_of(&rest));
    }
    if str_eq(id, "settings") {
        MenuAction::Settings
    } else if str_eq(id, "frameless") {
        MenuAction::Frameless
    } else if str_eq(id, "reload") {
        MenuAction::Reload
    } else if str_eq(id, "showall") {
        MenuAction::ShowAll
    } else if str_eq(id, "quit") {
        MenuAction::Quit
    } else {
        MenuAction::Ignore
    }
}

/// Each site's tray entry opens that site.
pub proof fn lemma_open_entry_opens(s: SiteView)
    ensures
        open_entry(s) matches MenuEntryView::Item { id, text } && menu_action_spec(id)
            == MenuActionView::OpenSite(s.id),
{
    reveal_strlit("open:");
    let id = "open:"@ + s.id;
    assert(id.take(5) =~= "open:"@);
    assert(id.skip(5) =~= s.id);
}

/// What a left click on the tray icon does.
#[derive(Clone, Debug)]
pub enum TrayClick {
    /// Hide the visible active window.
    Hide,
    /// Show and focus the active window.
    Focus,
    /// No window was active yet: open the settings window.
    OpenSettings,
}

/// A left click hides the active window when it is visible, brings it back
/// otherwise, and opens the settings when no window was active yet.
pub fn tray_click(active_visible: bool, active: &str) -> (r: TrayClick)
    ensures
        active_visible ==> r is Hide,
        !active_visible && active@.len() > 0 ==> r is Focus,
        !active_visible && active@.len() == 0 ==> r is OpenSettings,
{
    if active_visible {
        TrayClick::Hide
    } else if !active.is_empty() {
        TrayClick::Focus
    } else {
        TrayClick::OpenSettings
    }
}

/// Whether focusing window `label` makes it the new active window: only site
/// windows count, and only when another window was active.
pub fn focus_changes_active(active: &str, label: &str) -> (r: bool)
    ensures
        r == (starts_with(label@, "site-"@) && active@ != label@),
{
    let v = chars_of(label);
    let p = chars_of(WINDOW_PREFIX);
    starts_with_chars(&v, &p) && !str_eq(active, label)
}

/// Whether "show all" focuses window `label` too (every window but the settings).
pub fn focus_on_show_all(label: &str) -> (r: bool)
    ensures
        r == (label@ != "settings"@),
{
    !str_eq(label, SETTINGS_LABEL)
}

/// A credential can only be stored for a saved site (one with an id).
pub fn check_credential_site(site_id: &str) -> (r: Result<(), String>)
    ensures
        r is Ok <==> trim(site_id@).len() > 0,
        r matches Err(m) ==> m@ == "请先保存站点配置，再保存登录凭据"@,
{
    let t = trim_str(site_id);
    if t.as_str().is_empty() {
        Err(String::from_str("请先保存站点配置，再保存登录凭据"))
    } else {
        Ok(())
    }
}

/// The taskbar identity of a site's windows.
pub fn site_aumid(site_id: &str) -> (r: String)
    ensures
        r@ == "com.saspwa.site."@ + site_id@,
{
    let mut s = String::from_str("com.saspwa.site.");
    s.append(site_id);
    s
}

} // verus!
