//! The script injected into every site window (PWA display-mode spoof,
//! activity pulse, sign-in autofill, frameless title bar, F11 toggle), and
//! the small scripts evaluated in windows, rendered from site settings.

use vstd::prelude::*;
use vstd::string::*;

use crate::config::Site;
use crate::text::{chars_of, dec, dec_chars, occurs_at, occurs_at_exec, starts_with, starts_with_chars, string_of};

verus! {

// ---------------------------------------------------------------- JSON strings

/// Lower-case hexadecimal digit of `d < 16`.
pub open spec fn hex_char(d: u32) -> char {
    if d < 10 {
        (48 + d) as char
    } else {
        (87 + d) as char
    }
}

/// How a character stands inside a JSON string: `"` and `\` and the control
/// characters are escaped (`\b \t \n \f \r`, others as `\u00XX`), the
/// rest, non-ASCII included, is written as is.
pub open spec fn json_escape(c: char) -> Seq<char> {
    let u = c as u32;
    if c == '"' {
        seq!['\\', '"']
    } else if c == '\\' {
        seq!['\\', '\\']
    } else if u == 8 {
        seq!['\\', 'b']
    } else if u == 9 {
        seq!['\\', 't']
    } else if u == 10 {
        seq!['\\', 'n']
    } else if u == 12 {
        seq!['\\', 'f']
    } else if u == 13 {
        seq!['\\', 'r']
    } else if u < 32 {
        seq!['\\', 'u', '0', '0', hex_char(u / 16), hex_char(u % 16)]
    } else {
        seq![c]
    }
}

pub open spec fn json_escape_all(s: Seq<char>) -> Seq<char>
    decreases s.len(),
{
    if s.len() == 0 {
        Seq::empty()
    } else {
        json_escape_all(s.drop_last()) + json_escape(s.last())
    }
}

/// The JSON string literal of `s`.
pub open spec fn json_quote(s: Seq<char>) -> Seq<char> {
    seq!['"'] + json_escape_all(s) + seq!['"']
}

/// `serde_json::to_string` of a string slice: the JSON string literal of the
/// text, with the escapes of `json_escape` (serde_json's `ESCAPE` table and
/// `CharEscape`). Serializing a `str` into memory does not fail.
#[verifier::external_body]
fn json_string(value: &str) -> (r: Result<String, serde_json::Error>)
    ensures
        r is Ok,
        r is Ok ==> r->Ok_0@ == json_quote(value@),
{
    serde_json::to_string(value)
}

/// Declares `serde_json::Error` to the verifier (opaque).
#[verifier::external_type_specification]
#[verifier::external_body]
pub struct ExJsonError(serde_json::Error);

/// Embeds any text safely in a script, as a JavaScript string literal.
pub fn js_string(value: &str) -> (r: String)
    ensures
        r@ == json_quote(value@),
{
    match json_string(value) {
        Ok(t) => t,
        Err(_) => String::from_str("\"\""),
    }
}

// ---------------------------------------------------------------- template filling

/// The placeholders of the site script, in the order of the values that fill them.
pub open spec fn script_keys() -> Seq<Seq<char>> {
    seq!["__KEEP_AWAKE__"@, "__PULSE_MS__"@, "__CRED_USER__"@, "__CRED_PASS__"@, "__CRED_AUTO__"@]
}

/// Placeholder `k` stands at the start of `t`.
pub open spec fn key_at(t: Seq<char>, k: int) -> bool {
    script_keys()[k].len() > 0 && starts_with(t, script_keys()[k])
}

/// `t` with every placeholder `script_keys()[k]` replaced by `vals[k]`, in a
/// single pass over the template: a value is inserted as it is and never
/// searched for placeholders itself.
pub open spec fn fill(t: Seq<char>, vals: Seq<Seq<char>>) -> Seq<char>
    decreases t.len(),
{
    if t.len() == 0 {
        t
    } else if key_at(t, 0) {
        vals[0] + fill(t.skip(script_keys()[0].len() as int), vals)
    } else if key_at(t, 1) {
        vals[1] + fill(t.skip(script_keys()[1].len() as int), vals)
    } else if key_at(t, 2) {
        vals[2] + fill(t.skip(script_keys()[2].len() as int), vals)
    } else if key_at(t, 3) {
        vals[3] + fill(t.skip(script_keys()[3].len() as int), vals)
    } else if key_at(t, 4) {
        vals[4] + fill(t.skip(script_keys()[4].len() as int), vals)
    } else {
        seq![t[0]] + fill(t.drop_first(), vals)
    }
}

/// The pieces of template `t`: `Ok(c)` for a character copied as it is,
/// `Err(k)` for the slot of value `k`. They depend on the template alone.
pub open spec fn template_pieces(t: Seq<char>) -> Seq<Result<char, int>>
    decreases t.len(),
{
    if t.len() == 0 {
        Seq::empty()
    } else if key_at(t, 0) {
        seq![Err::<char, int>(0)] + template_pieces(t.skip(script_keys()[0].len() as int))
    } else if key_at(t, 1) {
        seq![Err::<char, int>(1)] + template_pieces(t.skip(script_keys()[1].len() as int))
    } else if key_at(t, 2) {
        seq![Err::<char, int>(2)] + template_pieces(t.skip(script_keys()[2].len() as int))
    } else if key_at(t, 3) {
        seq![Err::<char, int>(3)] + template_pieces(t.skip(script_keys()[3].len() as int))
    } else if key_at(t, 4) {
        seq![Err::<char, int>(4)] + template_pieces(t.skip(script_keys()[4].len() as int))
    } else {
        seq![Ok::<char, int>(t[0])] + template_pieces(t.drop_first())
    }
}

/// The text of `pieces` with value `vals[k]` in each slot `k`.
pub open spec fn assemble(pieces: Seq<Result<char, int>>, vals: Seq<Seq<char>>) -> Seq<char>
    decreases pieces.len(),
{
    if pieces.len() == 0 {
        Seq::empty()
    } else {
        (match pieces[0] {
            Ok(c) => seq![c],
            Err(k) => vals[k],
        }) + assemble(pieces.drop_first(), vals)
    }
}

proof fn lemma_assemble_cons(p: Result<char, int>, rest: Seq<Result<char, int>>, vals: Seq<Seq<char>>)
    ensures
        assemble(seq![p] + rest, vals) == (match p {
            Ok(c) => seq![c],
            Err(k) => vals[k],
        }) + assemble(rest, vals),
{
    assert((seq![p] + rest).drop_first() =~= rest);
}

/// Filling a template is putting the values into the slots of its pieces:
/// each value lands exactly at its placeholders' positions, and nothing
/// else of the result depends on it.
pub proof fn lemma_fill_is_assembly(t: Seq<char>, vals: Seq<Seq<char>>)
    ensures
        fill(t, vals) == assemble(template_pieces(t), vals),
    decreases t.len(),
{
    if t.len() > 0 {
        if key_at(t, 0) {
            let r = t.skip(script_keys()[0].len() as int);
            lemma_fill_is_assembly(r, vals);
            lemma_assemble_cons(Err::<char, int>(0), template_pieces(r), vals);
        } else if key_at(t, 1) {
            let r = t.skip(script_keys()[1].len() as int);
            lemma_fill_is_assembly(r, vals);
            lemma_assemble_cons(Err::<char, int>(1), template_pieces(r), vals);
        } else if key_at(t, 2) {
            let r = t.skip(script_keys()[2].len() as int);
            lemma_fill_is_assembly(r, vals);
            lemma_assemble_cons(Err::<char, int>(2), template_pieces(r), vals);
        } else if key_at(t, 3) {
            let r = t.skip(script_keys()[3].len() as int);
            lemma_fill_is_assembly(r, vals);
            lemma_assemble_cons(Err::<char, int>(3), template_pieces(r), vals);
        } else if key_at(t, 4) {
            let r = t.skip(script_keys()[4].len() as int);
            lemma_fill_is_assembly(r, vals);
            lemma_assemble_cons(Err::<char, int>(4), template_pieces(r), vals);
        } else {
            lemma_fill_is_assembly(t.drop_first(), vals);
            lemma_assemble_cons(Ok::<char, int>(t[0]), template_pieces(t.drop_first()), vals);
        }
    } else {
        assert(t =~= Seq::<char>::empty());
    }
}

proof fn lemma_occurs_starts(t: Seq<char>, p: Seq<char>, i: int)
    requires
        0 <= i <= t.len(),
    ensures
        occurs_at(t, p, i) == starts_with(t.skip(i), p),
{
    if i + p.len() <= t.len() {
        assert(t.skip(i).take(p.len() as int) =~= t.subrange(i, i + p.len()));
    }
}

/// Appends `w` to `out`.
fn append_chars(out: &mut Vec<char>, w: &Vec<char>)
    ensures
        final(out)@ == old(out)@ + w@,
{
    let ghost base = out@;
    for j in 0..w.len()
        invariant
            out@ == base + w@.take(j as int),
    {
        out.push(w[j]);
        assert(base + w@.take(j + 1) =~= (base + w@.take(j as int)).push(w@[j as int]));
    }
    assert(w@.take(w@.len() as int) =~= w@);
}

/// Whether placeholder `key` stands at position `i` of `t`.
fn key_here(t: &Vec<char>, key: &Vec<char>, i: usize) -> (r: bool)
    requires
        i <= t@.len(),
    ensures
        r == (key@.len() > 0 && starts_with(t@.skip(i as int), key@)),
{
    proof {
        lemma_occurs_starts(t@, key@, i as int);
    }
    key.len() > 0 && occurs_at_exec(t, key, i)
}

/// Fills template `t` with `vals` (see `fill`).
fn fill_template(t: &Vec<char>, keys: &Vec<Vec<char>>, vals: &Vec<Vec<char>>) -> (r: Vec<char>)
    requires
        keys@.len() == 5,
        vals@.len() == 5,
        forall|k: int| 0 <= k < 5 ==> (#[trigger] keys@[k])@ == script_keys()[k],
    ensures
        r@ == fill(t@, vals@.map_values(|v: Vec<char>| v@)),
{
    let ghost vv = vals@.map_values(|v: Vec<char>| v@);
    let n = t.len();
    let mut out: Vec<char> = Vec::new();
    let mut i: usize = 0;
    proof {
        assert(t@.skip(0) =~= t@);
        assert(out@ + fill(t@, vv) =~= fill(t@, vv));
    }
    while i < n
        invariant
            n == t@.len(),
            i <= n,
            keys@.len() == 5,
            vals@.len() == 5,
            forall|k: int| 0 <= k < 5 ==> (#[trigger] keys@[k])@ == script_keys()[k],
            vv == vals@.map_values(|v: Vec<char>| v@),
            out@ + fill(t@.skip(i as int), vv) == fill(t@, vv),
        decreases n - i,
    {
        let ghost rest = t@.skip(i as int);
        let ghost before = out@;
        let mut k: usize = 5;
        if key_here(t, &keys[0], i) {
            k = 0;
        } else if key_here(t, &keys[1], i) {
            k = 1;
        } else if key_here(t, &keys[2], i) {
            k = 2;
        } else if key_here(t, &keys[3], i) {
            k = 3;
        } else if key_here(t, &keys[4], i) {
            k = 4;
        }
        if k < 5 {
            let len = keys[k].len();
            proof {
                assert(keys@[k as int]@ == script_keys()[k as int]);
                assert(vv[k as int] == vals@[k as int]@);
                assert(rest.skip(len as int) =~= t@.skip(i + len));
                assert(fill(rest, vv) == vv[k as int] + fill(t@.skip(i + len), vv));
            }
            append_chars(&mut out, &vals[k]);
            proof {
                assert(before + (vv[k as int] + fill(t@.skip(i + len), vv)) =~= (before + vv[k as int])
                    + fill(t@.skip(i + len), vv));
            }
            i = i + len;
        } else {
            proof {
                assert(rest.drop_first() =~= t@.skip(i + 1));
                assert(before + (seq![t@[i as int]] + fill(t@.skip(i + 1), vv)) =~= before.push(
                    t@[i as int],
                ) + fill(t@.skip(i + 1), vv));
            }
            out.push(t[i]);
            i = i + 1;
        }
    }
    proof {
        assert(t@.skip(n as int) =~= Seq::<char>::empty());
        assert(out@ + Seq::<char>::empty() =~= out@);
    }
    out
}

// ---------------------------------------------------------------- the site script

/// Injected into every site window; the `__…__` placeholders are filled in
/// by `render_script`.
pub const SAS_INIT_SCRIPT: &'static str = r#"
(function(){
  try {
    if (__KEEP_AWAKE__) {
      // 「页面始终可见」伪装：WebKitGTK（GTK3）在窗口被最小化 / 隐藏（含本客户端「关闭 = 隐藏到
      // 托盘」）时会把页面标成 hidden 并派发 visibilitychange，SAS 前端收到后往往重新拉数据、
      // 把表格从第一行重绘一遍 —— 表现出来的就是「切个程序回来整页刷新了一次」。
      // Windows 侧我们用 --disable-backgrounding-occluded-windows 等参数关掉了同类行为，
      // 这里对页面做等价伪装：恒报 visible，并丢弃 visibilitychange 监听（只丢这一个事件类型）。
      try {
        Object.defineProperty(document, 'hidden', {
          get: function(){ return false; }, configurable: true
        });
        Object.defineProperty(document, 'visibilityState', {
          get: function(){ return 'visible'; }, configurable: true
        });
        Object.defineProperty(document, 'onvisibilitychange', {
          get: function(){ return null; }, set: function(){}, configurable: true
        });
        var _addEL = EventTarget.prototype.addEventListener;
        EventTarget.prototype.addEventListener = function(type){
          if (type === 'visibilitychange') return;
          return _addEL.apply(this, arguments);
        };
      } catch (e) {}
      var _mm = window.matchMedia;
      window.matchMedia = function(q){
        if (q && typeof q === 'string') {
          var m = q.match(/display-mode:\s*(\w+)/);
          if (m) {
            var mode = m[1];
            // 注意：browser 必须返回 false，否则「普通浏览器」判定成立，反而启用空闲超时。
            var like = (mode === 'standalone' || mode === 'minimal-ui' || mode === 'fullscreen' || mode === 'window-controls-overlay');
            return { matches: like, media: q, onchange: null,
              addListener: function(){}, removeListener: function(){},
              addEventListener: function(){}, removeEventListener: function(){},
              dispatchEvent: function(){ return false; } };
          }
        }
        return _mm ? _mm.call(window, q) : { matches:false, media:q, addListener:function(){}, removeListener:function(){}, addEventListener:function(){}, removeEventListener:function(){}, dispatchEvent:function(){return false;} };
      };
      Object.defineProperty(navigator, 'standalone', { get: function(){ return true; }, configurable: true });
    }
    if (__PULSE_MS__ > 0) {
      setInterval(function(){
        try { window.dispatchEvent(new MouseEvent('mousemove', { view: window, bubbles: true, cancelable: true, clientX: 1, clientY: 1 })); } catch(e){}
      }, __PULSE_MS__);
    }
    // 登录页自动填充：凭据由 Rust 侧解密后注入（磁盘上是 Windows DPAPI 密文）。
    // 只在出现密码输入框时动作（即登录页），已经填过值的框不覆盖用户手输。
    (function(){
      var U = __CRED_USER__, P = __CRED_PASS__, AUTO = __CRED_AUTO__;
      if (!U && !P) return;
      // 自动提交在同一标签页会话里只做一次，避免密码错误反复重试把账号锁掉。
      if (AUTO) {
        try {
          if (sessionStorage.getItem('__sas_autologin__')) AUTO = false;
          else sessionStorage.setItem('__sas_autologin__', '1');
        } catch(e){ AUTO = false; }
      }
      function pick(){
        var pw = document.querySelector('input[type=password]');
        if (!pw) return null;
        var scope = pw.form || document;
        var user = scope.querySelector('input[name=username], input[id=username], input[name=j_username], input[type=text], input[type=email]');
        return { pw: pw, user: user, scope: scope };
      }
      function put(el, v){
        if (!v || !el || el.value) return;
        el.value = v;
        el.dispatchEvent(new Event('input', { bubbles: true }));
        el.dispatchEvent(new Event('change', { bubbles: true }));
      }
      function fill(){
        var f = pick();
        if (!f) return false;
        put(f.user, U);
        put(f.pw, P);
        if (AUTO) {
          var btn = f.scope.querySelector('button[type=submit], input[type=submit], #submit, button');
          if (btn) setTimeout(function(){ try { btn.click(); } catch(e){} }, 400);
        }
        return true;
      }
      if (fill()) return;
      var tries = 0;
      var timer = setInterval(function(){
        tries += 1;
        // 登录页可能是跳转或异步渲染出来的：最多轮询 20 秒。
        if (fill() || tries > 40) clearInterval(timer);
      }, 500);
    })();
    var BAR_ID = 'sas-frameless-bar';
    function ensureBar(){
      var bar = document.getElementById(BAR_ID);
      if (bar) return bar;
      bar = document.createElement('div');
      bar.id = BAR_ID;
      bar.setAttribute('data-tauri-drag-region', '');
      bar.style.cssText = 'position:fixed;top:0;left:0;right:0;height:28px;z-index:2147483647;display:none;background:rgba(20,20,25,0.55);color:#fff;font:12px/28px system-ui,"Noto Sans CJK SC","Source Han Sans SC","Microsoft YaHei","WenQuanYi Micro Hei",sans-serif;user-select:none;';
      var title = document.createElement('span');
      title.id = BAR_ID + '-title';
      title.setAttribute('data-tauri-drag-region', '');
      title.textContent = ' ' + (document.title || '');
      title.style.cssText = 'padding-left:10px;';
      var mk = function(label, fn){
        var b = document.createElement('button');
        b.textContent = label;
        b.style.cssText = 'float:right;height:28px;width:34px;border:0;background:transparent;color:#fff;cursor:pointer;font-size:13px;';
        b.addEventListener('click', fn);
        return b;
      };
      bar.appendChild(title);
      bar.appendChild(mk('×', function(){ if (window.__TAURI__ && window.__TAURI__.window) window.__TAURI__.window.getCurrentWindow().hide(); }));
      bar.appendChild(mk('–', function(){ if (window.__TAURI__ && window.__TAURI__.window) window.__TAURI__.window.getCurrentWindow().minimize(); }));
      bar.appendChild(mk('⚙', function(){ if (window.__TAURI__ && window.__TAURI__.core) window.__TAURI__.core.invoke('show_settings'); }));
      document.documentElement.appendChild(bar);
      return bar;
    }
    ensureBar();
    document.addEventListener('DOMContentLoaded', function(){
      var t = document.getElementById(BAR_ID + '-title');
      if (t) t.textContent = ' ' + (document.title || '');
    });
    window.__sasShowFramelessBar = function(v, title){
      var bar = ensureBar();
      bar.style.display = v ? 'block' : 'none';
      if (title) { var t = document.getElementById(BAR_ID + '-title'); if (t) t.textContent = ' ' + title; }
    };
    // F11：切换无边框（去掉 / 恢复系统标题栏），由 Rust 侧写回该站点配置。
    // 正常情况由 Rust 的原生钩子接管（WebView2 会把 F11 当浏览器加速键，这里未必收得到），
    // 本监听是钩子装不上时的兜底。
    // 必须在捕获阶段拦下，否则 SAS 页面或 WebView 自带的全屏会先吃掉这个按键。
    window.addEventListener('keydown', function(e){
      if (e.key === 'F11' || e.keyCode === 122) {
        e.preventDefault();
        e.stopPropagation();
        if (e.repeat) return; // 长按的重复事件不重复切换
        try { window.__TAURI__.core.invoke('toggle_frameless'); }
        catch(err){ console.error('[SAS PWA] F11', err); }
      }
    }, true);
    console.log('[SAS PWA] ready');
  } catch(e){ console.error('[SAS PWA] error', e); }
})();
"#;

/// `true` / `false` as JavaScript writes them.
pub open spec fn js_bool(b: bool) -> Seq<char> {
    if b {
        "true"@
    } else {
        "false"@
    }
}

fn js_bool_exec(b: bool) -> (r: &'static str)
    ensures
        r@ == js_bool(b),
{
    if b {
        "true"
    } else {
        "false"
    }
}

/// Milliseconds between activity pulses: none without keep-alive, and at
/// most an hour.
pub open spec fn pulse_ms_spec(s: crate::config::SiteView) -> nat {
    if s.keep_awake {
        if s.pulse_seconds * 1000 > 3_600_000 {
            3_600_000
        } else {
            (s.pulse_seconds * 1000) as nat
        }
    } else {
        0
    }
}

/// The pulse interval with keep-alive on is the smaller of the configured
/// seconds in milliseconds and one hour (so 0 seconds means no pulse); with
/// keep-alive off there is no pulse.
pub proof fn lemma_pulse_interval(s: crate::config::SiteView)
    ensures
        !s.keep_awake ==> pulse_ms_spec(s) == 0,
        s.keep_awake ==> pulse_ms_spec(s) <= s.pulse_seconds * 1000,
        s.keep_awake ==> pulse_ms_spec(s) <= 3_600_000,
        s.keep_awake ==> (pulse_ms_spec(s) == s.pulse_seconds * 1000 || pulse_ms_spec(s) == 3_600_000),
        s.pulse_seconds == 0 ==> pulse_ms_spec(s) == 0,
{
}

/// Milliseconds between activity pulses of `site`.
pub fn pulse_ms(site: &Site) -> (r: u64)
    ensures
        r == pulse_ms_spec(site@),
{
    if !site.keep_awake {
        return 0;
    }
    if site.pulse_seconds > 3600 {
        3_600_000
    } else {
        site.pulse_seconds * 1000
    }
}

/// Credentials are only injected into sites reached over https.
pub open spec fn injects_credentials_spec(s: crate::config::SiteView) -> bool {
    starts_with(s.url, "https://"@)
}

/// Whether `site` gets its stored credentials injected (https only, so no
/// password travels over a plain channel).
pub fn injects_credentials(site: &Site) -> (r: bool)
    ensures
        r == injects_credentials_spec(site@),
{
    let u = chars_of(site.url.as_str());
    let p = chars_of("https://");
    starts_with_chars(&u, &p)
}

/// The sign-in triple actually injected: the stored one for https sites,
/// nothing (empty user and password, no auto-submit) otherwise.
pub open spec fn injected_login(
    s: crate::config::SiteView,
    login: Option<(Seq<char>, Seq<char>, bool)>,
) -> (Seq<char>, Seq<char>, bool) {
    if injects_credentials_spec(s) {
        match login {
            Some(t) => t,
            None => (Seq::empty(), Seq::empty(), false),
        }
    } else {
        (Seq::empty(), Seq::empty(), false)
    }
}

pub open spec fn login_view(login: Option<(String, String, bool)>) -> Option<(Seq<char>, Seq<char>, bool)> {
    match login {
        Some(t) => Some((t.0@, t.1@, t.2)),
        None => None,
    }
}

/// The values of the placeholders of `script_keys`: the keep-alive switch,
/// the pulse interval, and the user, password and auto-submit flag as
/// JavaScript literals.
pub open spec fn script_values(
    s: crate::config::SiteView,
    login: Option<(Seq<char>, Seq<char>, bool)>,
) -> Seq<Seq<char>> {
    let (user, pass, auto) = injected_login(s, login);
    seq![js_bool(s.keep_awake), dec(pulse_ms_spec(s)), json_quote(user), json_quote(pass), js_bool(auto)]
}

/// The script injected into `site`'s window given its stored sign-in triple:
/// the template with each placeholder filled with its value, in one pass.
pub open spec fn script_for(
    s: crate::config::SiteView,
    login: Option<(Seq<char>, Seq<char>, bool)>,
) -> Seq<char> {
    fill(SAS_INIT_SCRIPT@, script_values(s, login))
}

/// Renders the script injected into `site`'s window: keep-alive spoof on or
/// off, the pulse interval, and the sign-in triple `login` (only for https
/// sites).
pub fn render_script(site: &Site, login: Option<(String, String, bool)>) -> (r: String)
    ensures
        r@ == script_for(site@, login_view(login)),
{
    let https = injects_credentials(site);
    let (user, pass, auto) = match login {
        Some(t) if https => t,
        _ => (String::new(), String::new(), false),
    };
    let pulse = pulse_ms(site);
    let keys: Vec<Vec<char>> = vec![
        chars_of("__KEEP_AWAKE__"),
        chars_of("__PULSE_MS__"),
        chars_of("__CRED_USER__"),
        chars_of("__CRED_PASS__"),
        chars_of("__CRED_AUTO__"),
    ];
    let vals: Vec<Vec<char>> = vec![
        chars_of(js_bool_exec(site.keep_awake)),
        dec_chars(pulse),
        chars_of(js_string(user.as_str()).as_str()),
        chars_of(js_string(pass.as_str()).as_str()),
        chars_of(js_bool_exec(auto)),
    ];
    proof {
        assert(vals@.map_values(|v: Vec<char>| v@) =~= script_values(site@, login_view(login)));
    }
    let out = fill_template(&chars_of(SAS_INIT_SCRIPT), &keys, &vals);
    string_of(&out)
}

/// Whatever the user name and password hold (placeholder text included),
/// the script is the template's pieces with the quoted user name, the quoted
/// password and the auto-submit flag in their slots.
pub proof fn lemma_script_values_in_slots(
    s: crate::config::SiteView,
    login: Option<(Seq<char>, Seq<char>, bool)>,
)
    ensures
        script_for(s, login) == assemble(template_pieces(SAS_INIT_SCRIPT@), script_values(s, login)),
{
    lemma_fill_is_assembly(SAS_INIT_SCRIPT@, script_values(s, login));
}

/// A site that is not reached over https never gets credentials in its
/// script, whatever is stored.
pub proof fn lemma_http_sites_get_no_credentials(
    s: crate::config::SiteView,
    login: Option<(Seq<char>, Seq<char>, bool)>,
)
    requires
        !injects_credentials_spec(s),
    ensures
        script_for(s, login) == script_for(s, None),
{
}

/// Without keep-alive no pulse is sent.
pub proof fn lemma_no_pulse_without_keep_awake(s: crate::config::SiteView)
    requires
        !s.keep_awake,
    ensures
        pulse_ms_spec(s) == 0,
{
}

// ---------------------------------------------------------------- small scripts

/// Shows or hides the injected title bar, with `name` as its title.
pub open spec fn frameless_bar_script_spec(frameless: bool, name: Seq<char>) -> Seq<char> {
    "if(window.__sasShowFramelessBar)window.__sasShowFramelessBar("@ + js_bool(frameless) + ", "@
        + json_quote(name) + ");"@
}

/// The script that shows (frameless) or hides the injected title bar of a window.
pub fn frameless_bar_script(frameless: bool, name: &str) -> (r: String)
    ensures
        r@ == frameless_bar_script_spec(frameless, name@),
{
    let mut s = String::from_str("if(window.__sasShowFramelessBar)window.__sasShowFramelessBar(");
    s.append(js_bool_exec(frameless));
    s.append(", ");
    let q = js_string(name);
    s.append(q.as_str());
    s.append(");");
    s
}

/// Hands the system UI language to the settings page.
pub open spec fn lang_init_script_spec(lang: Seq<char>) -> Seq<char> {
    "window.__SAS_SYS_LANG__ = "@ + json_quote(lang) + ";"@
}

/// The initialization script of the settings window: the system language tag.
pub fn lang_init_script(lang: &str) -> (r: String)
    ensures
        r@ == lang_init_script_spec(lang@),
{
    let mut s = String::from_str("window.__SAS_SYS_LANG__ = ");
    let q = js_string(lang);
    s.append(q.as_str());
    s.append(";");
    s
}

} // verus!
