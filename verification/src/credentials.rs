//! Stored sign-in credentials (user name and password) of the sites: the
//! credential list and its updates, the hexadecimal secret encoding, and the
//! plain byte store used where no system-protected store exists.

use vstd::prelude::*;
use vstd::string::*;
use vstd::slice::slice_to_vec;
use vstd::utf8::{decode_utf8, encode_utf8, valid_utf8};

use crate::config::strings_view;
use crate::text::{str_eq, chars_of, lower, push_char, string_of, trim, trim_chars, trim_str};

verus! {

broadcast use {vstd::utf8::encode_utf8_valid_utf8, vstd::utf8::encode_utf8_decode_utf8};

/// One site's credential.
#[derive(Clone, Debug)]
pub struct Credential {
    pub site_id: String,
    pub username: String,
    /// Hexadecimal of the protected password; empty when only a user name is kept.
    pub secret: String,
    /// Whether the sign-in form is submitted automatically.
    pub auto_login: bool,
}

/// What the settings page gets to see of a credential: never the password.
#[derive(Clone, Debug)]
pub struct CredentialView {
    pub username: String,
    pub has_password: bool,
    pub auto_login: bool,
}

pub struct CredentialModel {
    pub site_id: Seq<char>,
    pub username: Seq<char>,
    pub secret: Seq<char>,
    pub auto_login: bool,
}

pub struct CredentialViewModel {
    pub username: Seq<char>,
    pub has_password: bool,
    pub auto_login: bool,
}

impl View for Credential {
    type V = CredentialModel;

    open spec fn view(&self) -> CredentialModel {
        CredentialModel {
            site_id: self.site_id@,
            username: self.username@,
            secret: self.secret@,
            auto_login: self.auto_login,
        }
    }
}

impl View for CredentialView {
    type V = CredentialViewModel;

    open spec fn view(&self) -> CredentialViewModel {
        CredentialViewModel {
            username: self.username@,
            has_password: self.has_password,
            auto_login: self.auto_login,
        }
    }
}

/// The settings-page view of a credential.
pub open spec fn summary(c: CredentialModel) -> CredentialViewModel {
    CredentialViewModel {
        username: c.username,
        has_password: c.secret.len() > 0,
        auto_login: c.auto_login,
    }
}

/// The view given for a site without credential: no user, no password.
pub open spec fn empty_summary() -> CredentialViewModel {
    CredentialViewModel { username: Seq::empty(), has_password: false, auto_login: false }
}

impl Default for CredentialView {
    fn default() -> (v: Self)
        ensures
            v@ == empty_summary(),
    {
        CredentialView { username: String::new(), has_password: false, auto_login: false }
    }
}

impl Credential {
    /// The settings-page view: user name, whether a password is stored, auto sign-in.
    pub fn public_view(&self) -> (v: CredentialView)
        ensures
            v@ == summary(self@),
    {
        CredentialView {
            username: self.username.clone(),
            has_password: !self.secret.as_str().is_empty(),
            auto_login: self.auto_login,
        }
    }

    /// A field-for-field copy.
    pub fn duplicate(&self) -> (r: Credential)
        ensures
            r@ == self@,
    {
        Credential {
            site_id: self.site_id.clone(),
            username: self.username.clone(),
            secret: self.secret.clone(),
            auto_login: self.auto_login,
        }
    }
}

pub open spec fn creds_view(v: Seq<Credential>) -> Seq<CredentialModel> {
    v.map_values(|c: Credential| c@)
}

// ---------------------------------------------------------------- hexadecimal

/// Lower-case hexadecimal digit of `d < 16`.
pub open spec fn hex_digit(d: u8) -> char {
    if d < 10 {
        (('0' as u8) + d) as char
    } else {
        (('a' as u8) + d - 10) as char
    }
}

/// Two lower-case hexadecimal digits per byte, as `{:02x}` writes them.
pub open spec fn hex_of(b: Seq<u8>) -> Seq<char>
    decreases b.len(),
{
    if b.len() == 0 {
        Seq::empty()
    } else {
        hex_of(b.drop_last()).push(hex_digit(b.last() / 16)).push(hex_digit(b.last() % 16))
    }
}

/// The value of a hexadecimal digit (either case).
pub open spec fn hex_val(c: char) -> Option<u8> {
    if '0' <= c <= '9' {
        Some((c as u32 - 48) as u8)
    } else if 'a' <= c <= 'f' {
        Some((c as u32 - 87) as u8)
    } else if 'A' <= c <= 'F' {
        Some((c as u32 - 55) as u8)
    } else {
        None
    }
}

/// An even number of hexadecimal digits, nothing else.
pub open spec fn is_hex_text(t: Seq<char>) -> bool {
    &&& t.len() % 2 == 0
    &&& forall|i: int| 0 <= i < t.len() ==> #[trigger] hex_val(t[i]) is Some
}

/// The bytes written by the digit pairs of `t`, high digit first.
pub open spec fn hex_bytes(t: Seq<char>) -> Seq<u8> {
    Seq::new((t.len() / 2) as nat, |j: int| (hex_val(t[2 * j])->0 * 16 + hex_val(t[2 * j + 1])->0) as u8)
}

/// The bytes written in `text` as pairs of hexadecimal digits (surrounding
/// whitespace ignored), or `None` when the trimmed text is not an even
/// number of hexadecimal digits.
pub open spec fn hex_decode(text: Seq<char>) -> Option<Seq<u8>> {
    let t = trim(text);
    if is_hex_text(t) {
        Some(hex_bytes(t))
    } else {
        None
    }
}

fn hex_digit_exec(d: u8) -> (c: char)
    requires
        d < 16,
    ensures
        c == hex_digit(d),
{
    if d < 10 {
        (48 + d) as char
    } else {
        (97 + d - 10) as char
    }
}

/// Lower-case hexadecimal of `bytes`, two digits per byte.
pub fn to_hex(bytes: &[u8]) -> (r: String)
    ensures
        r@ == hex_of(bytes@),
{
    let mut out = String::new();
    for i in 0..bytes.len()
        invariant
            out@ == hex_of(bytes@.take(i as int)),
    {
        let b = bytes[i];
        push_char(&mut out, hex_digit_exec(b / 16));
        push_char(&mut out, hex_digit_exec(b % 16));
        assert(bytes@.take(i + 1).drop_last() =~= bytes@.take(i as int));
    }
    assert(bytes@.take(bytes@.len() as int) =~= bytes@);
    out
}

fn hex_val_exec(c: char) -> (r: Option<u8>)
    ensures
        r == hex_val(c),
        r matches Some(v) ==> v < 16,
{
    if '0' <= c && c <= '9' {
        Some((c as u32 - 48) as u8)
    } else if 'a' <= c && c <= 'f' {
        Some((c as u32 - 87) as u8)
    } else if 'A' <= c && c <= 'F' {
        Some((c as u32 - 55) as u8)
    } else {
        None
    }
}

/// The bytes written in hexadecimal in `text` (see `hex_decode`).
pub fn from_hex(text: &str) -> (r: Option<Vec<u8>>)
    ensures
        match r {
            Some(v) => hex_decode(text@) == Some(v@),
            None => hex_decode(text@) is None,
        },
{
    let t = trim_chars(&chars_of(text));
    let n = t.len();
    if n % 2 != 0 {
        return None;
    }
    let mut out: Vec<u8> = Vec::new();
    let mut i: usize = 0;
    while i < n
        invariant
            t@ == trim(text@),
            n == t@.len(),
            n % 2 == 0,
            i % 2 == 0,
            i <= n,
            out@.len() == i / 2,
            forall|j: int| 0 <= j < i ==> #[trigger] hex_val(t@[j]) is Some,
            forall|j: int|
                0 <= j < i / 2 ==> #[trigger] out@[j] == (hex_val(t@[2 * j])->0 * 16 + hex_val(t@[2 * j
                    + 1])->0) as u8,
        decreases n - i,
    {
        let h = hex_val_exec(t[i]);
        let l = hex_val_exec(t[i + 1]);
        match (h, l) {
            (Some(h), Some(l)) => {
                out.push(h * 16 + l);
                i = i + 2;
            },
            _ => {
                return None;
            },
        }
    }
    assert(out@ =~= hex_bytes(t@));
    Some(out)
}

proof fn lemma_hex_ascii(b: Seq<u8>)
    ensures
        hex_of(b).len() == 2 * b.len(),
        forall|i: int|
            0 <= i < hex_of(b).len() ==> ('0' <= #[trigger] hex_of(b)[i] <= '9') || ('a'
                <= hex_of(b)[i] <= 'f'),
        forall|j: int|
            0 <= j < b.len() ==> hex_val(hex_of(b)[2 * j]) == Some(b[j] / 16) && hex_val(
                hex_of(b)[2 * j + 1],
            ) == Some(#[trigger] b[j] % 16),
    decreases b.len(),
{
    if b.len() > 0 {
        let p = b.drop_last();
        lemma_hex_ascii(p);
        let h = hex_of(b);
        assert forall|j: int| 0 <= j < b.len() implies hex_val(h[2 * j]) == Some(b[j] / 16)
            && hex_val(h[2 * j + 1]) == Some(#[trigger] b[j] % 16) by {
            if j < p.len() {
                assert(h[2 * j] == hex_of(p)[2 * j]);
                assert(h[2 * j + 1] == hex_of(p)[2 * j + 1]);
                assert(p[j] == b[j]);
            }
        }
    }
}

// ---------------------------------------------------------------- plain store

/// The bytes kept for a password in the plain store: its UTF-8 encoding.
pub open spec fn protect_spec(plain: Seq<char>) -> Seq<u8> {
    encode_utf8(plain)
}

/// Display text of the `FromUtf8Error` that `String::from_utf8` reports for `bytes`.
pub uninterp spec fn utf8_error_text(bytes: Seq<u8>) -> Seq<char>;

/// `String::from_utf8`: the text the bytes encode, or the display text of
/// the error when they are not valid UTF-8 (that text is not restated here).
#[verifier::external_body]
fn string_from_utf8(bytes: Vec<u8>) -> (r: Result<String, String>)
    ensures
        r is Ok <==> valid_utf8(bytes@),
        match r {
            Ok(s) => s@ == decode_utf8(bytes@),
            Err(e) => e@ == utf8_error_text(bytes@),
        },
{
    match String::from_utf8(bytes) {
        Ok(s) => Ok(s),
        Err(e) => Err(e.to_string()),
    }
}

/// Stores a password where no system-protected store exists: the bytes are
/// its UTF-8 encoding, i.e. effectively plaintext.
pub fn protect(plain: &str) -> (r: Result<Vec<u8>, String>)
    ensures
        r == Ok::<Vec<u8>, String>(r->Ok_0),
        r->Ok_0@ == protect_spec(plain@),
{
    Ok(slice_to_vec(plain.as_bytes()))
}

/// The message `unprotect` gives for bytes that are not text.
pub open spec fn not_text_message(bytes: Seq<u8>) -> Seq<char> {
    "解密结果不是合法文本："@ + utf8_error_text(bytes)
}

/// Reads back a password kept by `protect`.
pub fn unprotect(cipher: &[u8]) -> (r: Result<String, String>)
    ensures
        r is Ok <==> valid_utf8(cipher@),
        match r {
            Ok(s) => s@ == decode_utf8(cipher@),
            Err(e) => e@ == not_text_message(cipher@),
        },
{
    match string_from_utf8(slice_to_vec(cipher)) {
        Ok(s) => Ok(s),
        Err(e) => {
            let mut m = String::from_str("解密结果不是合法文本：");
            m.append(e.as_str());
            Err(m)
        },
    }
}

/// What `unprotect` reads back of `protect`'s bytes is the password itself.
pub proof fn lemma_protect_round_trip(plain: Seq<char>)
    ensures
        valid_utf8(protect_spec(plain)),
        decode_utf8(protect_spec(plain)) == plain,
{
}

/// The hexadecimal of any bytes decodes back to the same bytes.
pub proof fn lemma_hex_round_trip(b: Seq<u8>)
    ensures
        hex_decode(hex_of(b)) == Some(b),
{
    lemma_hex_ascii(b);
    let h = hex_of(b);
    assert(trim(h) == h) by {
        if h.len() > 0 {
            assert(!crate::text::is_ws(h[0]));
            assert(!crate::text::is_ws(h.last()));
        }
        crate::text::lemma_strip_start_at(h, crate::text::Strip::Whitespace, 0);
        assert(h.skip(0) =~= h);
        crate::text::lemma_strip_end_at(h, crate::text::Strip::Whitespace, h.len() as int);
        assert(h.take(h.len() as int) =~= h);
    }
    assert forall|i: int| 0 <= i < h.len() implies #[trigger] hex_val(h[i]) is Some by {}
    assert forall|j: int| 0 <= j < b.len() implies #[trigger] hex_bytes(h)[j] == b[j] by {
        assert(b[j] == (b[j] / 16) * 16 + b[j] % 16);
    }
    assert(hex_bytes(h) =~= b);
}

/// What decodes is exactly the lower-case hexadecimal of what it decodes to:
/// `to_hex` of the bytes gives back the trimmed text, lower-cased.
pub proof fn lemma_hex_decode_canonical(text: Seq<char>)
    requires
        hex_decode(text) is Some,
    ensures
        hex_of(hex_decode(text)->0) == lower(trim(text)),
{
    let t = trim(text);
    let v = hex_bytes(t);
    lemma_hex_ascii(v);
    let h = hex_of(v);
    let lt = lower(t);
    assert forall|i: int| 0 <= i < h.len() implies #[trigger] h[i] == lt[i] by {
        let j = i / 2;
        assert(hex_val(t[2 * j]) is Some);
        assert(hex_val(t[2 * j + 1]) is Some);
        let hi = hex_val(t[2 * j])->0;
        let lo = hex_val(t[2 * j + 1])->0;
        assert(v[j] == (hi * 16 + lo) as u8);
        assert(v[j] / 16 == hi && v[j] % 16 == lo);
        assert(hex_val(h[2 * j]) == Some(hi));
        assert(hex_val(h[2 * j + 1]) == Some(lo));
        if i % 2 == 0 {
            assert(i == 2 * j);
        } else {
            assert(i == 2 * j + 1);
        }
        assert(hex_val(lt[i]) == hex_val(t[i]));
    }
    assert(h =~= lt);
}

// ---------------------------------------------------------------- the list

/// `i` is the first position of a credential for site `id`.
pub open spec fn is_first(list: Seq<CredentialModel>, id: Seq<char>, i: int) -> bool {
    &&& 0 <= i < list.len()
    &&& list[i].site_id == id
    &&& forall|j: int| 0 <= j < i ==> (#[trigger] list[j]).site_id != id
}

pub open spec fn has_site(list: Seq<CredentialModel>, id: Seq<char>) -> bool {
    exists|i: int| 0 <= i < list.len() && (#[trigger] list[i]).site_id == id
}

/// Position of the first credential for site `id` (meaningful when `has_site`).
pub open spec fn first_index(list: Seq<CredentialModel>, id: Seq<char>) -> int {
    choose|i: int| is_first(list, id, i)
}

/// The first credential kept for site `id`.
pub open spec fn find_cred(list: Seq<CredentialModel>, id: Seq<char>) -> Option<CredentialModel> {
    if has_site(list, id) {
        Some(list[first_index(list, id)])
    } else {
        None
    }
}

/// Credentials of other sites than `id`.
pub open spec fn other_site(id: Seq<char>) -> spec_fn(CredentialModel) -> bool {
    |c: CredentialModel| c.site_id != id
}

/// Credentials of sites listed in `alive`.
pub open spec fn alive_site(alive: Seq<Seq<char>>) -> spec_fn(CredentialModel) -> bool {
    |c: CredentialModel| alive.contains(c.site_id)
}

proof fn lemma_first_exists(list: Seq<CredentialModel>, id: Seq<char>)
    requires
        has_site(list, id),
    ensures
        is_first(list, id, first_index(list, id)),
{
    let k = choose|i: int| 0 <= i < list.len() && (#[trigger] list[i]).site_id == id;
    lemma_least_match(list, id, k);
}

proof fn lemma_least_match(list: Seq<CredentialModel>, id: Seq<char>, k: int) -> (m: int)
    requires
        0 <= k < list.len(),
        list[k].site_id == id,
    ensures
        is_first(list, id, m),
    decreases k,
{
    if exists|j: int| 0 <= j < k && (#[trigger] list[j]).site_id == id {
        let j = choose|j: int| 0 <= j < k && (#[trigger] list[j]).site_id == id;
        lemma_least_match(list, id, j)
    } else {
        k
    }
}

proof fn lemma_first_unique(list: Seq<CredentialModel>, id: Seq<char>, i: int)
    requires
        is_first(list, id, i),
    ensures
        has_site(list, id),
        first_index(list, id) == i,
        find_cred(list, id) == Some(list[i]),
{
    assert(list[i].site_id == id);
    lemma_first_exists(list, id);
    let k = first_index(list, id);
    if k < i {
        assert(list[k].site_id != id);
    }
    if i < k {
        assert(list[i].site_id != id);
    }
}

/// Position of the first credential of site `site_id`.
fn first_pos(list: &Vec<Credential>, site_id: &str) -> (r: Option<usize>)
    ensures
        match r {
            Some(i) => is_first(creds_view(list@), site_id@, i as int),
            None => !has_site(creds_view(list@), site_id@),
        },
{
    let ghost l = creds_view(list@);
    for i in 0..list.len()
        invariant
            l == creds_view(list@),
            forall|j: int| 0 <= j < i ==> (#[trigger] l[j]).site_id != site_id@,
    {
        if str_eq(list[i].site_id.as_str(), site_id) {
            return Some(i);
        }
    }
    proof {
        if has_site(l, site_id@) {
            let k = choose|k: int| 0 <= k < l.len() && (#[trigger] l[k]).site_id == site_id@;
            assert(l[k].site_id != site_id@);
        }
    }
    None
}

/// The first credential of site `site_id`.
pub fn find(list: &Vec<Credential>, site_id: &str) -> (r: Option<Credential>)
    ensures
        match r {
            Some(c) => find_cred(creds_view(list@), site_id@) == Some(c@),
            None => find_cred(creds_view(list@), site_id@) is None,
        },
{
    match first_pos(list, site_id) {
        Some(i) => {
            proof {
                lemma_first_unique(creds_view(list@), site_id@, i as int);
            }
            Some(list[i].duplicate())
        },
        None => None,
    }
}

/// Drops the credentials of site `site_id`; tells whether any was dropped.
pub fn remove(list: &mut Vec<Credential>, site_id: &str) -> (changed: bool)
    ensures
        creds_view(final(list)@) == creds_view(old(list)@).filter(other_site(site_id@)),
        changed == (final(list)@.len() != old(list)@.len()),
{
    let ghost l = creds_view(list@);
    let mut kept: Vec<Credential> = Vec::new();
    for i in 0..list.len()
        invariant
            l == creds_view(list@),
            creds_view(kept@) == l.take(i as int).filter(other_site(site_id@)),
    {
        let keep = !str_eq(list[i].site_id.as_str(), site_id);
        proof {
            l.take(i as int).lemma_filter_push(l[i as int], other_site(site_id@));
            assert(l.take(i as int).push(l[i as int]) =~= l.take(i + 1));
        }
        if keep {
            let c = list[i].duplicate();
            kept.push(c);
            assert(creds_view(kept@) =~= l.take(i as int).filter(other_site(site_id@)).push(l[i as int]));
        }
    }
    assert(l.take(l.len() as int) =~= l);
    let before = list.len();
    *list = kept;
    before != list.len()
}

/// Whether `s` is one of `alive`.
pub(crate) fn contains_str(alive: &Vec<String>, s: &str) -> (r: bool)
    ensures
        r == strings_view(alive@).contains(s@),
{
    for i in 0..alive.len()
        invariant
            forall|j: int| 0 <= j < i ==> alive@[j]@ != s@,
    {
        if str_eq(alive[i].as_str(), s) {
            assert(strings_view(alive@)[i as int] == s@);
            return true;
        }
    }
    proof {
        if strings_view(alive@).contains(s@) {
            let j = choose|j: int| 0 <= j < alive@.len() && strings_view(alive@)[j] == s@;
            assert(alive@[j]@ == s@);
        }
    }
    false
}

/// Keeps only the credentials of sites listed in `alive` (no orphan entries
/// after a site is deleted); tells whether any was dropped.
pub fn prune(list: Vec<Credential>, alive: &Vec<String>) -> (r: (Vec<Credential>, bool))
    ensures
        creds_view(r.0@) == creds_view(list@).filter(alive_site(strings_view(alive@))),
        r.1 == (r.0@.len() != list@.len()),
{
    let ghost l = creds_view(list@);
    let ghost av = strings_view(alive@);
    let mut kept: Vec<Credential> = Vec::new();
    for i in 0..list.len()
        invariant
            l == creds_view(list@),
            av == strings_view(alive@),
            creds_view(kept@) == l.take(i as int).filter(alive_site(av)),
    {
        let keep = contains_str(alive, list[i].site_id.as_str());
        proof {
            l.take(i as int).lemma_filter_push(l[i as int], alive_site(av));
            assert(l.take(i as int).push(l[i as int]) =~= l.take(i + 1));
        }
        if keep {
            let c = list[i].duplicate();
            kept.push(c);
            assert(creds_view(kept@) =~= l.take(i as int).filter(alive_site(av)).push(l[i as int]));
        }
    }
    assert(l.take(l.len() as int) =~= l);
    let changed = kept.len() != list.len();
    (kept, changed)
}

/// Looking a site up in a list with one more credential at the end.
proof fn lemma_find_push(init: Seq<CredentialModel>, x: CredentialModel, o: Seq<char>)
    ensures
        find_cred(init.push(x), o) == if has_site(init, o) {
            find_cred(init, o)
        } else if x.site_id == o {
            Some(x)
        } else {
            None::<CredentialModel>
        },
{
    let l = init.push(x);
    if has_site(init, o) {
        lemma_first_exists(init, o);
        let i = first_index(init, o);
        assert forall|j: int| 0 <= j < i implies (#[trigger] l[j]).site_id != o by {
            assert(l[j] == init[j]);
        }
        assert(l[i] == init[i]);
        lemma_first_unique(l, o, i);
        lemma_first_unique(init, o, i);
    } else if x.site_id == o {
        assert forall|j: int| 0 <= j < init.len() implies (#[trigger] l[j]).site_id != o by {
            assert(l[j] == init[j]);
        }
        lemma_first_unique(l, o, init.len() as int);
    } else {
        if has_site(l, o) {
            let k = choose|k: int| 0 <= k < l.len() && (#[trigger] l[k]).site_id == o;
            assert(k < init.len());
            assert(l[k] == init[k]);
        }
    }
}

/// Filtering with a predicate that keeps every credential of site `o`
/// finds the same credential of `o`.
proof fn lemma_find_filter(list: Seq<CredentialModel>, pred: spec_fn(CredentialModel) -> bool, o: Seq<char>)
    requires
        forall|c: CredentialModel| c.site_id == o ==> #[trigger] pred(c),
    ensures
        find_cred(list.filter(pred), o) == find_cred(list, o),
    decreases list.len(),
{
    if list.len() > 0 {
        let init = list.drop_last();
        let x = list.last();
        assert(init.push(x) =~= list);
        lemma_find_filter(init, pred, o);
        init.lemma_filter_push(x, pred);
        lemma_find_push(init, x, o);
        lemma_find_push(init.filter(pred), x, o);
        assert(has_site(init.filter(pred), o) == has_site(init, o)) by {
            if has_site(init, o) {
                lemma_first_exists(init, o);
            }
            if has_site(init.filter(pred), o) {
                lemma_first_exists(init.filter(pred), o);
            }
        }
    } else {
        assert(list.filter(pred) =~= list);
    }
}

/// Saving or clearing the credential of one site leaves what is found for
/// every other site as it was.
pub proof fn lemma_upsert_keeps_other_sites(
    list: Seq<CredentialModel>,
    id: Seq<char>,
    username: Seq<char>,
    cipher: Option<Seq<u8>>,
    auto_login: bool,
    other: Seq<char>,
)
    requires
        other != id,
    ensures
        find_cred(upserted(list, id, username, cipher, auto_login).0, other) == find_cred(list, other),
{
    let l = upserted(list, id, username, cipher, auto_login).0;
    if trim(username).len() == 0 {
        lemma_find_filter(list, other_site(id), other);
    } else if has_site(list, id) {
        lemma_first_exists(list, id);
        let i = first_index(list, id);
        assert(l.len() == list.len());
        assert(l[i].site_id == id);
        assert forall|j: int| 0 <= j < l.len() && j != i implies #[trigger] l[j] == list[j] by {}
        if has_site(list, other) {
            lemma_first_exists(list, other);
            let k = first_index(list, other);
            assert(k != i);
            assert forall|j: int| 0 <= j < k implies (#[trigger] l[j]).site_id != other by {
                if j != i {
                    assert(l[j] == list[j]);
                }
            }
            lemma_first_unique(l, other, k);
            lemma_first_unique(list, other, k);
        } else if has_site(l, other) {
            let k = choose|k: int| 0 <= k < l.len() && (#[trigger] l[k]).site_id == other;
            assert(k != i);
            assert(l[k] == list[k]);
        }
    } else {
        let entry = l.last();
        assert(l =~= list.push(entry));
        lemma_find_push(list, entry, other);
    }
}

/// Pruning keeps what is found for every live site and drops every other site.
pub proof fn lemma_prune_keeps_live_sites(list: Seq<CredentialModel>, alive: Seq<Seq<char>>, o: Seq<char>)
    ensures
        alive.contains(o) ==> find_cred(list.filter(alive_site(alive)), o) == find_cred(list, o),
        !alive.contains(o) ==> find_cred(list.filter(alive_site(alive)), o) is None,
{
    if alive.contains(o) {
        lemma_find_filter(list, alive_site(alive), o);
    } else {
        let l = list.filter(alive_site(alive));
        if has_site(l, o) {
            let k = choose|k: int| 0 <= k < l.len() && (#[trigger] l[k]).site_id == o;
            list.lemma_filter_pred(alive_site(alive), k);
        }
    }
}

/// Once a site's credentials are removed, looking the site up finds nothing.
pub proof fn lemma_removed_site_not_found(list: Seq<CredentialModel>, id: Seq<char>)
    ensures
        find_cred(list.filter(other_site(id)), id) is None,
{
    let l = list.filter(other_site(id));
    if has_site(l, id) {
        let k = choose|k: int| 0 <= k < l.len() && (#[trigger] l[k]).site_id == id;
        list.lemma_filter_pred(other_site(id), k);
    }
}

/// After pruning, every credential left belongs to a live site, and every
/// credential of a live site is still there.
pub proof fn lemma_pruned_sites_alive(list: Seq<CredentialModel>, alive: Seq<Seq<char>>)
    ensures
        forall|i: int|
            0 <= i < list.filter(alive_site(alive)).len() ==> alive.contains(
                (#[trigger] list.filter(alive_site(alive))[i]).site_id,
            ),
        forall|i: int|
            0 <= i < list.len() && alive.contains((#[trigger] list[i]).site_id) ==> list.filter(
                alive_site(alive),
            ).contains(list[i]),
{
    let l = list.filter(alive_site(alive));
    assert forall|i: int| 0 <= i < l.len() implies alive.contains((#[trigger] l[i]).site_id) by {
        list.lemma_filter_pred(alive_site(alive), i);
    }
    assert forall|i: int| 0 <= i < list.len() && alive.contains((#[trigger] list[i]).site_id) implies l.contains(
        list[i],
    ) by {
        list.lemma_filter_contains(alive_site(alive), i);
    }
}

/// The stored list after saving `username` (and a new protected password,
/// if given) for site `id`, the view handed back, and whether the list has
/// to be written. A blank user name clears the site's credentials; without a
/// new password the stored one is kept.
pub open spec fn upserted(
    list: Seq<CredentialModel>,
    id: Seq<char>,
    username: Seq<char>,
    cipher: Option<Seq<u8>>,
    auto_login: bool,
) -> (Seq<CredentialModel>, CredentialViewModel, bool) {
    let user = trim(username);
    if user.len() == 0 {
        let kept = list.filter(other_site(id));
        (kept, empty_summary(), kept.len() != list.len())
    } else {
        let secret = match cipher {
            Some(c) => hex_of(c),
            None => match find_cred(list, id) {
                Some(c) => c.secret,
                None => Seq::empty(),
            },
        };
        let entry = CredentialModel {
            site_id: id,
            username: user,
            secret: secret,
            auto_login: auto_login,
        };
        let new_list = if has_site(list, id) {
            list.update(first_index(list, id), entry)
        } else {
            list.push(entry)
        };
        (new_list, summary(entry), true)
    }
}

/// Filtering that keeps as many entries as there were keeps them all.
proof fn lemma_filter_same_len(list: Seq<CredentialModel>, pred: spec_fn(CredentialModel) -> bool)
    requires
        list.filter(pred).len() == list.len(),
    ensures
        list.filter(pred) == list,
    decreases list.len(),
{
    if list.len() > 0 {
        let init = list.drop_last();
        let x = list.last();
        assert(init.push(x) =~= list);
        init.lemma_filter_push(x, pred);
        init.lemma_filter_len(pred);
        if pred(x) {
            lemma_filter_same_len(init, pred);
        }
    } else {
        assert(list.filter(pred) =~= list);
    }
}

/// Saving a non-blank user name always asks for the list to be written, and
/// any change to the list asks for it too; an unchanged list is not written.
pub proof fn lemma_upsert_saves_changes(
    list: Seq<CredentialModel>,
    id: Seq<char>,
    username: Seq<char>,
    cipher: Option<Seq<u8>>,
    auto_login: bool,
)
    ensures
        trim(username).len() > 0 ==> upserted(list, id, username, cipher, auto_login).2,
        upserted(list, id, username, cipher, auto_login).0 != list ==> upserted(list, id, username, cipher, auto_login).2,
        trim(username).len() == 0 ==> (upserted(list, id, username, cipher, auto_login).2 <==> has_site(list, id)),
{
    if trim(username).len() == 0 {
        let kept = list.filter(other_site(id));
        if kept.len() == list.len() {
            lemma_filter_same_len(list, other_site(id));
            if has_site(list, id) {
                let k = choose|k: int| 0 <= k < list.len() && (#[trigger] list[k]).site_id == id;
                list.lemma_filter_pred(other_site(id), k);
            }
        } else {
            if !has_site(list, id) {
                assert forall|k: int| 0 <= k < list.len() implies #[trigger] other_site(id)(list[k]) by {}
                lemma_filter_all(list, other_site(id));
            }
        }
    }
}

/// Filtering with a predicate that every entry meets keeps them all.
proof fn lemma_filter_all(list: Seq<CredentialModel>, pred: spec_fn(CredentialModel) -> bool)
    requires
        forall|k: int| 0 <= k < list.len() ==> #[trigger] pred(list[k]),
    ensures
        list.filter(pred) == list,
    decreases list.len(),
{
    if list.len() > 0 {
        let init = list.drop_last();
        let x = list.last();
        assert(init.push(x) =~= list);
        assert forall|k: int| 0 <= k < init.len() implies #[trigger] pred(init[k]) by {
            assert(init[k] == list[k]);
        }
        lemma_filter_all(init, pred);
        init.lemma_filter_push(x, pred);
    } else {
        assert(list.filter(pred) =~= list);
    }
}

/// Whether saving `username` with `password` calls for protecting a new
/// password: only for a non-blank user name and a non-empty password.
pub fn wants_new_secret(username: &str, password: Option<&str>) -> (r: bool)
    ensures
        r == (trim(username@).len() > 0 && match password {
            Some(p) => p@.len() > 0,
            None => false,
        }),
{
    let u = trim_str(username);
    if u.as_str().is_empty() {
        return false;
    }
    match password {
        Some(p) => !p.is_empty(),
        None => false,
    }
}

/// Saves or clears the credential of site `site_id` in `list` (see `upserted`).
pub fn upsert(
    list: &mut Vec<Credential>,
    site_id: &str,
    username: &str,
    cipher: Option<Vec<u8>>,
    auto_login: bool,
) -> (r: (CredentialView, bool))
    ensures
        ({
            let (l, v, save) = upserted(
                creds_view(old(list)@),
                site_id@,
                username@,
                match cipher {
                    Some(c) => Some(c@),
                    None => None,
                },
                auto_login,
            );
            creds_view(final(list)@) == l && r.0@ == v && r.1 == save
        }),
{
    let ghost l = creds_view(list@);
    let user = trim_str(username);
    if user.as_str().is_empty() {
        let changed = remove(list, site_id);
        return (CredentialView::default(), changed);
    }
    let existing = find(list, site_id);
    let secret = match cipher {
        Some(c) => to_hex(c.as_slice()),
        None => match existing {
            Some(c) => c.secret,
            None => String::new(),
        },
    };
    let entry = Credential {
        site_id: String::from_str(site_id),
        username: user,
        secret: secret,
        auto_login: auto_login,
    };
    let view = entry.public_view();
    let pos = first_pos(list, site_id);
    proof {
        if let Some(i) = pos {
            lemma_first_unique(l, site_id@, i as int);
        }
    }
    match pos {
        Some(i) => {
            list.set(i, entry);
            assert(creds_view(list@) =~= l.update(i as int, entry@));
        },
        None => {
            list.push(entry);
            assert(creds_view(list@) =~= l.push(entry@));
        },
    }
    (view, true)
}

/// After saving a non-blank user name for a site, looking the site up gives
/// exactly the saved entry; after clearing it, nothing.
pub proof fn lemma_upsert_then_find(
    list: Seq<CredentialModel>,
    id: Seq<char>,
    username: Seq<char>,
    cipher: Option<Seq<u8>>,
    auto_login: bool,
)
    ensures
        ({
            let (l, v, _) = upserted(list, id, username, cipher, auto_login);
            if trim(username).len() == 0 {
                find_cred(l, id) is None
            } else {
                &&& find_cred(l, id) matches Some(c)
                &&& c.username == trim(username)
                &&& c.auto_login == auto_login
                &&& v == summary(c)
                &&& cipher matches Some(b) ==> c.secret == hex_of(b)
                &&& cipher is None ==> c.secret == match find_cred(list, id) {
                    Some(o) => o.secret,
                    None => Seq::empty(),
                }
            }
        }),
{
    let (l, v, _) = upserted(list, id, username, cipher, auto_login);
    if trim(username).len() == 0 {
        if has_site(l, id) {
            let k = choose|k: int| 0 <= k < l.len() && (#[trigger] l[k]).site_id == id;
            list.lemma_filter_pred(other_site(id), k);
        }
    } else {
        let entry = l[if has_site(list, id) {
            first_index(list, id)
        } else {
            list.len() as int
        }];
        if has_site(list, id) {
            lemma_first_exists(list, id);
            let i = first_index(list, id);
            assert forall|j: int| 0 <= j < i implies (#[trigger] l[j]).site_id != id by {
                assert(l[j] == list[j]);
            }
            lemma_first_unique(l, id, i);
        } else {
            assert forall|j: int| 0 <= j < list.len() implies (#[trigger] l[j]).site_id != id by {
                assert(l[j] == list[j]);
            }
            lemma_first_unique(l, id, list.len() as int);
        }
    }
}

/// A password saved through the plain store is read back unchanged: the
/// entry found for the site holds hexadecimal that decodes
/// to bytes that `unprotect` turns back into the password.
pub proof fn lemma_credential_round_trip(
    list: Seq<CredentialModel>,
    id: Seq<char>,
    username: Seq<char>,
    password: Seq<char>,
    auto_login: bool,
)
    requires
        trim(username).len() > 0,
    ensures
        ({
            let (l, v, _) = upserted(list, id, username, Some(protect_spec(password)), auto_login);
            &&& find_cred(l, id) matches Some(c)
            &&& hex_decode(c.secret) == Some(protect_spec(password))
            &&& valid_utf8(protect_spec(password))
            &&& decode_utf8(protect_spec(password)) == password
            &&& (password.len() > 0 ==> v.has_password)
        }),
{
    lemma_upsert_then_find(list, id, username, Some(protect_spec(password)), auto_login);
    lemma_hex_round_trip(protect_spec(password));
    lemma_protect_round_trip(password);
    lemma_hex_ascii(protect_spec(password));
    if password.len() > 0 {
        assert(encode_utf8(password).len() > 0) by {
            reveal_with_fuel(encode_utf8, 1);
            assert(vstd::utf8::encode_scalar(password[0] as u32).len() > 0);
        }
    }
}

// ---------------------------------------------------------------- sign-in

/// What the stored secret of a credential yields for the sign-in form.
#[derive(Clone, Debug)]
pub enum LoginSecret {
    /// Only a user name is kept.
    NoPassword,
    /// The stored secret is not valid hexadecimal.
    Malformed,
    /// The protected password bytes, to be read back by the store.
    Cipher(Vec<u8>),
}

/// The protected password of `cred`, if one is stored and well-formed.
pub fn login_secret(cred: &Credential) -> (r: LoginSecret)
    ensures
        cred.secret@.len() == 0 ==> r is NoPassword,
        cred.secret@.len() > 0 ==> match r {
            LoginSecret::Cipher(c) => hex_decode(cred.secret@) == Some(c@),
            LoginSecret::Malformed => hex_decode(cred.secret@) is None,
            LoginSecret::NoPassword => false,
        },
{
    if cred.secret.as_str().is_empty() {
        return LoginSecret::NoPassword;
    }
    match from_hex(cred.secret.as_str()) {
        Some(c) => LoginSecret::Cipher(c),
        None => LoginSecret::Malformed,
    }
}

/// The sign-in triple (user name, password, submit automatically) once the
/// store has read the password back; `None` when it could not.
pub fn login_triple(cred: &Credential, password: Result<String, String>) -> (r: Option<(String, String, bool)>)
    ensures
        match password {
            Ok(p) => r matches Some(t) && t.0@ == cred.username@ && t.1@ == p@ && t.2 == cred.auto_login,
            Err(_) => r is None,
        },
{
    match password {
        Ok(p) => Some((cred.username.clone(), p, cred.auto_login)),
        Err(_) => None,
    }
}

/// The sign-in triple of site `id` that the plain store reads back: `None`
/// without a credential or a stored password, or when the secret is not
/// hexadecimal or not text.
pub open spec fn login_spec(list: Seq<CredentialModel>, id: Seq<char>) -> Option<(Seq<char>, Seq<char>, bool)> {
    match find_cred(list, id) {
        None => None,
        Some(c) => if c.secret.len() == 0 {
            None
        } else {
            match hex_decode(c.secret) {
                None => None,
                Some(b) => if valid_utf8(b) {
                    Some((c.username, decode_utf8(b), c.auto_login))
                } else {
                    None
                },
            }
        },
    }
}

/// The settings-page view of the credential of site `site_id`.
pub fn view(list: &Vec<Credential>, site_id: &str) -> (r: Option<CredentialView>)
    ensures
        match r {
            Some(v) => find_cred(creds_view(list@), site_id@) matches Some(c) && v@ == summary(c),
            None => find_cred(creds_view(list@), site_id@) is None,
        },
{
    match find(list, site_id) {
        Some(c) => Some(c.public_view()),
        None => None,
    }
}

/// The sign-in triple (user name, password, submit automatically) of site
/// `site_id`, the password read back by the plain store (see `login_spec`):
/// `None` without a stored password, or when the stored secret is not
/// hexadecimal (a tampered file) or not text.
pub fn login_of(list: &Vec<Credential>, site_id: &str) -> (r: Option<(String, String, bool)>)
    ensures
        match r {
            Some(t) => login_spec(creds_view(list@), site_id@) == Some((t.0@, t.1@, t.2)),
            None => login_spec(creds_view(list@), site_id@) is None,
        },
{
    let cred = match find(list, site_id) {
        Some(c) => c,
        None => return None,
    };
    match login_secret(&cred) {
        LoginSecret::Cipher(c) => login_triple(&cred, unprotect(c.as_slice())),
        LoginSecret::NoPassword => None,
        LoginSecret::Malformed => None,
    }
}

/// What a read gives back of a write: after a password is saved for a site
/// under a non-blank user name, signing in to that site yields the trimmed
/// user name, that very password and the auto sign-in flag.
pub proof fn lemma_login_after_upsert(
    list: Seq<CredentialModel>,
    id: Seq<char>,
    username: Seq<char>,
    password: Seq<char>,
    auto_login: bool,
)
    requires
        trim(username).len() > 0,
        password.len() > 0,
    ensures
        ({
            let l = upserted(list, id, username, Some(protect_spec(password)), auto_login).0;
            &&& login_spec(l, id) == Some((trim(username), password, auto_login))
        }),
{
    lemma_credential_round_trip(list, id, username, password, auto_login);
    lemma_upsert_then_find(list, id, username, Some(protect_spec(password)), auto_login);
    let l = upserted(list, id, username, Some(protect_spec(password)), auto_login).0;
    let c = find_cred(l, id)->0;
    assert(c.secret == hex_of(protect_spec(password)));
    assert(protect_spec(password).len() > 0) by {
        reveal_with_fuel(encode_utf8, 1);
        assert(vstd::utf8::encode_scalar(password[0] as u32).len() > 0);
    }
    lemma_hex_ascii(protect_spec(password));
}

} // verus!
