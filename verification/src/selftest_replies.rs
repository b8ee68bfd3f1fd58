//! The self-test's conversation with its pages: the scripts that ask, and what
//! the replies say.

use vstd::prelude::*;
use vstd::string::*;
use crate::json;
use crate::json::{field_index, field_views, json_literal, json_views, Json, JsonView};
use crate::text;
use crate::text::{
    decimal, first_index, parts, signed_decimal, signed_value, text_views, unsigned_value, words,
};

verus! {

// ---------------------------------------------------------------- scripts

/// The script that reports the middles of the icons of the dock.
pub const CENTERS_SCRIPT: &'static str = "(function () {\n  const els = [...document.querySelectorAll('.dock-icon')];\n  const cs = els.map(function (el) {\n    const r = el.getBoundingClientRect();\n    return Math.round(r.left + r.width / 2) + ':' + Math.round(r.top + r.height / 2);\n  });\n  window.__TAURI_INTERNALS__.invoke('selftest_report', { msg: 'centers ' + cs.join(' ') });\n})();";

/// The script that reports the hint that the dock shows.
pub const HINT_SCRIPT: &'static str = "(function () {\n  const el = document.querySelector('.dock-hint');\n  window.__TAURI_INTERNALS__.invoke('selftest_report', {\n    msg: 'hint:' + (el ? el.textContent : '<none>')\n  });\n})();";

/// The script that reports that it is armed, and then the moves of one drag.
pub const DRAG_PROBE_SCRIPT: &'static str = "(function () {\n  const row = document.querySelector('.dock-row') || document.body;\n  const log = [];\n  const rep = (m) => window.__TAURI_INTERNALS__.invoke('selftest_report', { msg: String(m) });\n  row.addEventListener('pointerdown', function onDown(e) {\n    try { row.setPointerCapture(e.pointerId); } catch (err) { log.push('capture-fail'); }\n    log.push('down ' + Math.round(e.clientX) + ',' + Math.round(e.clientY));\n    const mv = (ev) => log.push('mv ' + Math.round(ev.clientX) + ',' + Math.round(ev.clientY));\n    const up = (ev) => {\n      log.push('up ' + Math.round(ev.clientX) + ',' + Math.round(ev.clientY));\n      row.removeEventListener('pointermove', mv);\n      row.removeEventListener('pointerup', up);\n      rep('ok ' + log.join(' | '));\n    };\n    const cancel = (ev) => { log.push('cancel'); rep('cancel ' + log.join(' | ')); };\n    row.addEventListener('pointermove', mv);\n    row.addEventListener('pointerup', up);\n    row.addEventListener('pointercancel', cancel);\n  }, { once: true });\n  rep('armed');\n})();";

/// The script that changes the colour of the glass from the settings, reports
/// what came of it and changes it back.
pub const SETTINGS_SCRIPT: &'static str = "(async () => {\n  const I = window.__TAURI_INTERNALS__;\n  const rep = (m) => I.invoke(\"selftest_report\", { msg: String(m) });\n  try {\n    if (!I || !I.invoke) return void rep(\"no-bridge\");\n    const sections = document.querySelectorAll(\"section\").length;\n    const textLen = (document.body.innerText || \"\").length;\n    const info = await I.invoke(\"get_dock_info\");\n    const prefs = await I.invoke(\"get_preferences\");\n    const before = JSON.stringify(prefs.glassRgb) + \"@\" + prefs.glassAlpha;\n    const test = Object.assign({}, prefs, { glassRgb: [200, 60, 60], glassAlpha: 200 });\n    await I.invoke(\"set_preferences\", { prefs: test });\n    const after = await I.invoke(\"get_preferences\");\n    const changed = JSON.stringify(after.glassRgb) + \"@\" + after.glassAlpha;\n    await I.invoke(\"set_preferences\", { prefs: prefs });   // 还原\n    rep(\"ok sections=\" + sections + \" textLen=\" + textLen\n        + \" ver=\" + info.version + \" pinned=\" + info.pinnedCount\n        + \" running=\" + info.runningCount + \" scale=\" + info.scale\n        + \" logical=\" + info.dockLogical.join(\"x\")\n        + \" | color \" + before + \" -> \" + changed);\n  } catch (e) {\n    rep(\"err \" + e);\n  }\n})();";

/// The script that reports where each icon stands and which part of it is drawn.
pub const BOXES_SCRIPT: &'static str = "(function () {\n  const rep = (m) => window.__TAURI_INTERNALS__.invoke('selftest_report', { msg: 'boxes ' + m });\n  (async function () {\n    const els = [...document.querySelectorAll('.dock-icon')];\n    const out = [];\n    for (const el of els) {\n      const img = el.querySelector('img');\n      const box = el.getBoundingClientRect();\n      if (!img) { out.push({ box: [box.left, box.right], g: null }); continue; }\n      try {\n        const blob = await (await fetch(img.src)).blob();\n        const bmp = await createImageBitmap(blob);\n        const c = new OffscreenCanvas(bmp.width, bmp.height);\n        const cx = c.getContext('2d');\n        cx.drawImage(bmp, 0, 0);\n        const d = cx.getImageData(0, 0, bmp.width, bmp.height).data;\n        let x0 = bmp.width, x1 = -1, y0 = bmp.height, y1 = -1;\n        for (let y = 0; y < bmp.height; y++) {\n          for (let x = 0; x < bmp.width; x++) {\n            if (d[(y * bmp.width + x) * 4 + 3] > 16) {\n              if (x < x0) x0 = x; if (x > x1) x1 = x;\n              if (y < y0) y0 = y; if (y > y1) y1 = y;\n            }\n          }\n        }\n        out.push({ box: [box.left, box.right], g: [x0, x1, y0, y1, bmp.width, bmp.height] });\n      } catch (e) { out.push({ box: [box.left, box.right], g: null }); }\n    }\n    rep(JSON.stringify(out));\n  })();\n})();";

/// The expression for how many icons the dock shows.
pub const ICON_COUNT_EXPR: &'static str = "document.querySelectorAll('.dock-icon').length";

/// The expression for how wide the first icon is.
pub const ICON_WIDTH_EXPR: &'static str = "document.querySelector('.dock-icon')?.style.width || '<无图标>'";

/// The expression for how wide the row of icons is.
pub const ROW_WIDTH_EXPR: &'static str = "Math.round(document.querySelector('.dock-row').getBoundingClientRect().width)";

/// The expression for the left and right edges of the icons.
pub const ICON_EDGES_EXPR: &'static str = "JSON.stringify([...document.querySelectorAll('.dock-icon')].map(function (e) {\n  const r = e.getBoundingClientRect();\n  return [r.left, r.right];\n}))";

/// The expression for what an open menu shows.
pub const MENU_EXPR: &'static str = "JSON.stringify((function () {\n  const m = document.querySelector('.panel');\n  return {\n    n: document.querySelectorAll('.menu-item').length,\n    div: document.querySelectorAll('.menu-divider').length,\n    labels: [...document.querySelectorAll('.menu-item')].map(function (e) { return e.textContent; }),\n    scroll: m.scrollHeight,\n    client: m.clientHeight,\n    w: Math.round(m.getBoundingClientRect().width)\n  };\n})())";

/// The expression for which cells of an open folder are marked as running.
pub const FOLDER_DOTS_EXPR: &'static str = "JSON.stringify([...document.querySelectorAll('.folder-item')].map(function (e) {\n  return !!e.querySelector('.folder-dot');\n}))";

/// The expression for whether an icon of the dock is marked as running.
pub fn icon_dot_expr(index: usize) -> (r: String)
    ensures
        r@ == "JSON.stringify((function () {\n  const el = [...document.querySelectorAll('.dock-icon')]["@
            + decimal(index as nat)
            + "];\n  return { folderDot: !!(el && el.querySelector('.dock-dot')) };\n})())"@,
{
    text::concat3(
        "JSON.stringify((function () {\n  const el = [...document.querySelectorAll('.dock-icon')][",
        text::decimal_string(index as u64).as_str(),
        "];\n  return { folderDot: !!(el && el.querySelector('.dock-dot')) };\n})())",
    )
}

/// The expression for how an entry is drawn that should be a separator.
pub fn separator_expr(index: usize) -> (r: String)
    ensures
        r@ == "JSON.stringify((function () {\n  const all = [...document.querySelectorAll('.dock-icon')];\n  const s = all["@
            + decimal(index as nat)
            + "];\n  const l = s ? s.querySelector('.dock-sep-line') : null;\n  const lb = l ? l.getBoundingClientRect() : null;\n  return {\n    n: document.querySelectorAll('.dock-sep').length,\n    isSep: !!(s && s.classList.contains('dock-sep')),\n    w: s ? Math.round(s.getBoundingClientRect().width) : -1,\n    line: !!l,\n    lineW: lb ? Math.round(lb.width * 100) / 100 : -1,\n    lineH: lb ? Math.round(lb.height) : -1,\n    lineBg: l ? getComputedStyle(l).backgroundColor : '',\n    dot: s ? !!s.querySelector('.dock-dot') : true,\n    img: s ? !!s.querySelector('img') : true\n  };\n})())"@,
{
    text::concat3(
        "JSON.stringify((function () {\n  const all = [...document.querySelectorAll('.dock-icon')];\n  const s = all[",
        text::decimal_string(index as u64).as_str(),
        "];\n  const l = s ? s.querySelector('.dock-sep-line') : null;\n  const lb = l ? l.getBoundingClientRect() : null;\n  return {\n    n: document.querySelectorAll('.dock-sep').length,\n    isSep: !!(s && s.classList.contains('dock-sep')),\n    w: s ? Math.round(s.getBoundingClientRect().width) : -1,\n    line: !!l,\n    lineW: lb ? Math.round(lb.width * 100) / 100 : -1,\n    lineH: lb ? Math.round(lb.height) : -1,\n    lineBg: l ? getComputedStyle(l).backgroundColor : '',\n    dot: s ? !!s.querySelector('.dock-dot') : true,\n    img: s ? !!s.querySelector('img') : true\n  };\n})())",
    )
}

/// The script that evaluates an expression in a page and reports its value.
pub fn eval_script(expr: &str) -> (r: String)
    ensures
        r@ == "(function () {\n  try {\n    const v = ("@ + expr@
            + ");\n    window.__TAURI_INTERNALS__.invoke('selftest_report', { msg: 'v:' + String(v) });\n  } catch (e) {\n    window.__TAURI_INTERNALS__.invoke('selftest_report', { msg: 'v:<err ' + e + '>' });\n  }\n})();"@,
{
    text::concat3(
        "(function () {\n  try {\n    const v = (",
        expr,
        ");\n    window.__TAURI_INTERNALS__.invoke('selftest_report', { msg: 'v:' + String(v) });\n  } catch (e) {\n    window.__TAURI_INTERNALS__.invoke('selftest_report', { msg: 'v:<err ' + e + '>' });\n  }\n})();",
    )
}

/// The expression for the middle of an element of a class.
pub fn item_center_expr(class: &str, index: usize) -> (r: String)
    ensures
        r@ == "(function () {\n  const e = document.querySelectorAll('"@ + class@ + "')["@ + decimal(
            index as nat,
        )
            + "];\n  if (!e) return '<none>';\n  const b = e.getBoundingClientRect();\n  return Math.round(b.left + b.width / 2) + ':' + Math.round(b.top + b.height / 2);\n})()"@,
{
    let mut r = text::concat3(
        "(function () {\n  const e = document.querySelectorAll('",
        class,
        "')[",
    );
    r.append(text::decimal_string(index as u64).as_str());
    r.append(
        "];\n  if (!e) return '<none>';\n  const b = e.getBoundingClientRect();\n  return Math.round(b.left + b.width / 2) + ':' + Math.round(b.top + b.height / 2);\n})()",
    );
    r
}

/// The script that sets one preference to a number, and reports that it did
/// where a word to report is given.
pub fn set_preference_script(field: &str, value: i64, done: &Option<String>) -> (r: String)
    ensures
        r@ == "(async () => {\n  const I = window.__TAURI_INTERNALS__;\n  const p = await I.invoke('get_preferences');\n  p."@
            + field@ + " = "@ + signed_decimal(value as int)
            + ";\n  await I.invoke('set_preferences', { prefs: p });\n"@ + (match *done {
            Some(w) => "  I.invoke('selftest_report', { msg: '"@ + w@ + "' });\n})();"@,
            None => "})();"@,
        }),
{
    let mut r = text::concat3(
        "(async () => {\n  const I = window.__TAURI_INTERNALS__;\n  const p = await I.invoke('get_preferences');\n  p.",
        field,
        " = ",
    );
    r.append(text::signed_string(value).as_str());
    r.append(";\n  await I.invoke('set_preferences', { prefs: p });\n");
    match done {
        Some(w) => {
            let t = text::concat3(
                "  I.invoke('selftest_report', { msg: '",
                w.as_str(),
                "' });\n})();",
            );
            let ghost before = r@;
            r.append(t.as_str());
            assert(r@ =~= before + ("  I.invoke('selftest_report', { msg: '"@ + w@
                + "' });\n})();"@));
        },
        None => {
            r.append("})();");
        },
    }
    r
}

/// The script that types a name into the prompt and confirms it.
pub fn name_prompt_script(name: &str) -> (r: String)
    ensures
        r@ == "(function () {\n  const el = document.querySelector('.prompt-input');\n  if (!el) return;\n  const set = Object.getOwnPropertyDescriptor(HTMLInputElement.prototype, 'value').set;\n  set.call(el, "@
            + json_literal(name@)
            + ");\n  el.dispatchEvent(new Event('input', { bubbles: true }));\n  setTimeout(function () {\n    const b = document.querySelector('.prompt-btn.primary');\n    if (b && !b.disabled) b.click();\n  }, 80);\n})()"@,
{
    let l = json::literal_of(name);
    text::concat3(
        "(function () {\n  const el = document.querySelector('.prompt-input');\n  if (!el) return;\n  const set = Object.getOwnPropertyDescriptor(HTMLInputElement.prototype, 'value').set;\n  set.call(el, ",
        l.as_str(),
        ");\n  el.dispatchEvent(new Event('input', { bubbles: true }));\n  setTimeout(function () {\n    const b = document.querySelector('.prompt-btn.primary');\n    if (b && !b.disabled) b.click();\n  }, 80);\n})()",
    )
}

// ---------------------------------------------------------------- replies

/// What a reply says behind its tag; the whole where it has none.
pub open spec fn untagged(reply: Seq<char>, tag: Seq<char>) -> Seq<char> {
    if tag.is_prefix_of(reply) {
        reply.skip(tag.len() as int)
    } else {
        reply
    }
}

/// What a reply says behind its tag; the whole where it has none.
pub fn reply_text(reply: &str, tag: &str) -> (r: String)
    ensures
        r@ == untagged(reply@, tag@),
{
    match tagged_text(reply, tag) {
        Some(t) => t,
        None => reply.to_owned(),
    }
}

/// What a reply says behind its tag.
pub fn tagged_text(reply: &str, tag: &str) -> (r: Option<String>)
    ensures
        match r {
            Some(t) => tag@.is_prefix_of(reply@) && t@ == reply@.skip(tag@.len() as int),
            None => !tag@.is_prefix_of(reply@),
        },
{
    if text::starts_with(reply, tag) {
        let v = text::chars_of(reply);
        let from: usize = tag.unicode_len();
        let n: usize = v.len();
        assert(v@.subrange(from as int, n as int) =~= reply@.skip(tag@.len() as int));
        Some(text::string_of(&v, from, n))
    } else {
        None
    }
}

/// The two halves of a text around its first colon.
pub open spec fn halves(s: Seq<char>) -> Option<(Seq<char>, Seq<char>)> {
    let i = first_index(s, ':');
    if i < s.len() {
        Some((s.take(i), s.skip(i + 1)))
    } else {
        None
    }
}

/// The contents of a pair of texts.
pub open spec fn pair_view(p: Option<(String, String)>) -> Option<(Seq<char>, Seq<char>)> {
    match p {
        Some((a, b)) => Some((a@, b@)),
        None => None,
    }
}

/// The two numbers of a point, as they are written.
pub fn point_tokens(s: &str) -> (r: Option<(String, String)>)
    ensures
        pair_view(r) == halves(s@),
{
    let v = text::chars_of(s);
    let n: usize = v.len();
    assert(v@.skip(0) =~= s@);
    let i = text::index_from(&v, ':', 0);
    if i < n {
        assert(v@.subrange(0, i as int) =~= s@.take(i as int));
        assert(v@.subrange(i + 1, n as int) =~= s@.skip(i + 1));
        Some((text::string_of(&v, 0, i), text::string_of(&v, i + 1, n)))
    } else {
        None
    }
}

/// All the words of a reply are points.
pub open spec fn all_points(ws: Seq<Seq<char>>) -> bool {
    forall|i: int| 0 <= i < ws.len() ==> halves(#[trigger] ws[i]) is Some
}

/// The middles of the icons, as they are written in a reply; `None` where the
/// reply is another one or is broken.
pub fn center_tokens(reply: &str) -> (r: Option<Vec<(String, String)>>)
    ensures
        ({
            let ws = words(reply@.skip("centers "@.len() as int));
            match r {
                Some(ps) => {
                    &&& "centers "@.is_prefix_of(reply@)
                    &&& ps@.len() == ws.len()
                    &&& forall|i: int|
                        0 <= i < ws.len() ==> pair_view(Some(#[trigger] ps@[i])) == halves(ws[i])
                },
                None => !"centers "@.is_prefix_of(reply@) || !all_points(ws),
            }
        }),
{
    let body = match tagged_text(reply, "centers ") {
        Some(b) => b,
        None => {
            return None;
        },
    };
    let all = text::split_words(body.as_str());
    let ghost ws = words(body@);
    let mut out: Vec<(String, String)> = Vec::new();
    let mut i: usize = 0;
    while i < all.len()
        invariant
            i <= all@.len(),
            text_views(all@) == ws,
            ws == words(reply@.skip("centers "@.len() as int)),
            "centers "@.is_prefix_of(reply@),
            out@.len() == i,
            forall|k: int|
                0 <= k < i ==> pair_view(Some(#[trigger] out@[k])) == halves(ws[k]),
        decreases all@.len() - i,
    {
        assert(ws[i as int] == all@[i as int]@);
        match point_tokens(all[i].as_str()) {
            Some(p) => {
                out.push(p);
            },
            None => {
                assert(!all_points(ws));
                return None;
            },
        }
        i += 1;
    }
    Some(out)
}

// ---------------------------------------------------------------- the dragging probe

/// How many characters at the beginning are digits or minus signs.
pub open spec fn number_length(s: Seq<char>) -> int
    decreases s.len(),
{
    if s.len() > 0 && ('0' <= s[0] && s[0] <= '9' || s[0] == '-') {
        1 + number_length(s.skip(1))
    } else {
        0
    }
}

/// The second number of a point in a report of moves.
pub open spec fn move_y(s: Seq<char>) -> Option<int> {
    let i = first_index(s, ',');
    if i < s.len() {
        let rest = s.skip(i + 1);
        match signed_value(rest.take(number_length(rest))) {
            Some(n) => if i32::MIN <= n <= i32::MAX {
                Some(n)
            } else {
                None
            },
            None => None,
        }
    } else {
        None
    }
}

/// The smallest of the numbers that can be read.
pub open spec fn lowest(ps: Seq<Seq<char>>) -> Option<int>
    decreases ps.len(),
{
    if ps.len() == 0 {
        None
    } else {
        match (lowest(ps.drop_last()), move_y(ps.last())) {
            (Some(a), Some(b)) => Some(
                if b < a {
                    b
                } else {
                    a
                },
            ),
            (Some(a), None) => Some(a),
            (None, b) => b,
        }
    }
}

fn read_move(s: &str) -> (r: Option<i32>)
    ensures
        match move_y(s@) {
            Some(n) => r is Some && r->0 == n,
            None => r is None,
        },
{
    let v = text::chars_of(s);
    let n: usize = v.len();
    assert(v@.skip(0) =~= s@);
    let i = text::index_from(&v, ',', 0);
    if i >= n {
        return None;
    }
    let from: usize = i + 1;
    let ghost rest = s@.skip(i + 1);
    let mut to: usize = from;
    while to < n && ('0' <= v[to] && v[to] <= '9' || v[to] == '-')
        invariant
            from <= to <= n == v@.len(),
            rest == v@.skip(from as int),
            number_length(rest) == (to - from) + number_length(v@.skip(to as int)),
        decreases n - to,
    {
        assert(v@.skip(to as int)[0] == v@[to as int]);
        assert(v@.skip(to as int).skip(1) =~= v@.skip(to + 1));
        to += 1;
    }
    proof {
        if to < n {
            assert(v@.skip(to as int)[0] == v@[to as int]);
        }
        assert(v@.subrange(from as int, to as int) =~= rest.take(to - from));
    }
    match text::parse_signed(&v, from, to) {
        Some(k) => if -0x8000_0000 <= k && k <= 0x7fff_ffff {
            Some(k as i32)
        } else {
            None
        },
        None => None,
    }
}

/// What a report of moves shows of dragging out of the window.
#[derive(Debug, Clone, Copy, PartialEq, Eq, Structural)]
pub enum DragReach {
    /// The page heard of moves above the window, up to this height.
    Outside(i32),
    /// It heard of moves within the window only.
    Inside(i32),
    Unknown,
}

/// What a report of moves shows of dragging out of the window.
pub fn drag_reach(report: &str) -> (r: DragReach)
    ensures
        match lowest(parts(report@, "mv "@).skip(1)) {
            Some(y) => if y < 0 {
                r is Outside && r->Outside_0 == y
            } else {
                r is Inside && r->Inside_0 == y
            },
            None => r is Unknown,
        },
{
    proof {
        reveal_strlit("mv ");
    }
    let all = text::split_text(report, "mv ");
    let ghost ps = parts(report@, "mv "@).skip(1);
    let mut best: Option<i32> = None;
    let mut i: usize = 1;
    assert(ps.take(0) =~= Seq::empty());
    assert(text_views(all@).len() == all@.len());
    assert(all@.len() >= 1);
    while i < all.len()
        invariant
            1 <= i <= all@.len(),
            text_views(all@) == parts(report@, "mv "@),
            ps == parts(report@, "mv "@).skip(1),
            match lowest(ps.take(i - 1)) {
                Some(y) => best is Some && best->0 == y,
                None => best is None,
            },
        decreases all@.len() - i,
    {
        proof {
            assert(ps.take(i as int).drop_last() =~= ps.take(i - 1));
            assert(ps.take(i as int).last() == ps[i - 1]);
            assert(ps[i - 1] == text_views(all@)[i as int]);
        }
        match (best, read_move(all[i].as_str())) {
            (Some(a), Some(b)) => {
                if b < a {
                    best = Some(b);
                }
            },
            (Some(_), None) => {},
            (None, b) => {
                best = b;
            },
        }
        i += 1;
    }
    assert(ps.take(all@.len() - 1) =~= ps);
    match best {
        Some(y) => if y < 0 {
            DragReach::Outside(y)
        } else {
            DragReach::Inside(y)
        },
        None => DragReach::Unknown,
    }
}

// ---------------------------------------------------------------- the settings page

/// How many sections a report of the settings page counts; nothing where it
/// gives no number.
pub open spec fn section_count(report: Seq<char>) -> nat {
    let ps = parts(report, "sections="@);
    if ps.len() < 2 {
        0
    } else {
        let ws = words(ps[1]);
        if ws.len() == 0 {
            0
        } else {
            match unsigned_value(ws[0]) {
                Some(n) => if n <= u64::MAX {
                    n
                } else {
                    0
                },
                None => 0,
            }
        }
    }
}

/// A report of the settings page is good: the page was drawn, its calls worked
/// and the colour changed at once.
pub fn settings_report_ok(report: &str) -> (r: bool)
    ensures
        r == ("ok "@.is_prefix_of(report@) && section_count(report@) >= 2 && text::occurs(
            report@,
            "-> [200,60,60]@200"@,
        )),
{
    proof {
        reveal_strlit("sections=");
    }
    let ps = text::split_text(report, "sections=");
    assert(text_views(ps@).len() == ps@.len());
    let mut sections: u64 = 0;
    if ps.len() >= 2 {
        assert(text_views(ps@)[1] == ps@[1]@);
        let ws = text::split_words(ps[1].as_str());
        assert(text_views(ws@).len() == ws@.len());
        if ws.len() > 0 {
            assert(text_views(ws@)[0] == ws@[0]@);
            match text::parse_unsigned(ws[0].as_str()) {
                Some(n) => {
                    sections = n;
                },
                None => {},
            }
        }
    }
    assert(sections == section_count(report@));
    text::starts_with(report, "ok ") && sections >= 2 && text::contains(
        report,
        "-> [200,60,60]@200",
    )
}

// ---------------------------------------------------------------- documents

/// What an object holds under a name; nothing where it is no object or has no
/// such field.
pub open spec fn under(j: JsonView, key: Seq<char>) -> JsonView {
    match j {
        JsonView::Object(fs) => {
            let i = field_index(fs, key);
            if i < fs.len() {
                fs[i].1
            } else {
                JsonView::Null
            }
        },
        _ => JsonView::Null,
    }
}

/// A document is this flag.
pub open spec fn is_flag(j: JsonView, b: bool) -> bool {
    j == JsonView::Bool(b)
}

/// A document is this whole number.
pub open spec fn is_count(j: JsonView, n: nat) -> bool {
    j == JsonView::Number(decimal(n))
}

fn flag_under(j: &Json, key: &str, b: bool) -> (r: bool)
    ensures
        r == is_flag(under(j@, key@), b),
{
    proof {
        json::lemma_parts(*j);
    }
    match j {
        Json::Object(fs) => {
            let i = json::find_field(fs, key);
            if i < fs.len() {
                assert(field_views(fs@)[i as int] == (fs@[i as int].0@, fs@[i as int].1@));
                match &fs[i].1 {
                    Json::Bool(x) => *x == b,
                    _ => false,
                }
            } else {
                false
            }
        },
        _ => false,
    }
}

fn count_under(j: &Json, key: &str, n: u64) -> (r: bool)
    ensures
        r == is_count(under(j@, key@), n as nat),
{
    proof {
        json::lemma_parts(*j);
    }
    match j {
        Json::Object(fs) => {
            let i = json::find_field(fs, key);
            if i < fs.len() {
                assert(field_views(fs@)[i as int] == (fs@[i as int].0@, fs@[i as int].1@));
                match &fs[i].1 {
                    Json::Number(x) => {
                        let d = text::decimal_string(n);
                        text::same(x.text(), d.as_str())
                    },
                    _ => false,
                }
            } else {
                false
            }
        },
        _ => false,
    }
}

/// The whole number under a name; `None` where there is none or it does not fit.
pub open spec fn number_under(j: JsonView, key: Seq<char>) -> Option<int> {
    match under(j, key) {
        JsonView::Number(s) => match signed_value(s) {
            Some(n) => if i64::MIN <= n <= i64::MAX {
                Some(n)
            } else {
                None
            },
            None => None,
        },
        _ => None,
    }
}

fn read_number(j: &Json, key: &str) -> (r: Option<i64>)
    ensures
        match number_under(j@, key@) {
            Some(n) => r is Some && r->0 == n,
            None => r is None,
        },
{
    proof {
        json::lemma_parts(*j);
    }
    match j {
        Json::Object(fs) => {
            let i = json::find_field(fs, key);
            if i < fs.len() {
                assert(field_views(fs@)[i as int] == (fs@[i as int].0@, fs@[i as int].1@));
                match &fs[i].1 {
                    Json::Number(x) => {
                        let v = text::chars_of(x.text());
                        let n: usize = v.len();
                        assert(v@.subrange(0, n as int) =~= x@);
                        text::parse_signed(&v, 0, n)
                    },
                    _ => None,
                }
            } else {
                None
            }
        },
        _ => None,
    }
}

/// The page drew a new separator as it should: one more of them, at its place,
/// as wide as one is, with a line and neither an icon nor a dot.
pub open spec fn separator_drawn(j: JsonView, count: nat) -> bool {
    is_count(under(j, "n"@), count) && is_flag(under(j, "isSep"@), true) && is_count(
        under(j, "w"@),
        9,
    ) && is_flag(under(j, "line"@), true) && is_flag(under(j, "dot"@), false) && is_flag(
        under(j, "img"@),
        false,
    )
}

/// The page drew a new separator as it should.
pub fn separator_ok(j: &Json, count: u64) -> (r: bool)
    ensures
        r == separator_drawn(j@, count as nat),
{
    count_under(j, "n", count) && flag_under(j, "isSep", true) && count_under(j, "w", 9)
        && flag_under(j, "line", true) && flag_under(j, "dot", false) && flag_under(
        j,
        "img",
        false,
    )
}

/// A number that is one, written as a whole number or as a fraction.
pub open spec fn is_one(j: JsonView) -> bool {
    match j {
        JsonView::Number(s) => s == "1"@ || s == "1.0"@,
        _ => false,
    }
}

fn one_under(j: &Json, key: &str) -> (r: bool)
    ensures
        r == is_one(under(j@, key@)),
{
    proof {
        json::lemma_parts(*j);
    }
    match j {
        Json::Object(fs) => {
            let i = json::find_field(fs, key);
            if i < fs.len() {
                assert(field_views(fs@)[i as int] == (fs@[i as int].0@, fs@[i as int].1@));
                match &fs[i].1 {
                    Json::Number(x) => text::same(x.text(), "1") || text::same(x.text(), "1.0"),
                    _ => false,
                }
            } else {
                false
            }
        },
        _ => false,
    }
}

/// The line of a separator can be seen: it is one pixel wide, has some height
/// and is light.
pub open spec fn line_drawn(j: JsonView) -> bool {
    is_one(under(j, "lineW"@)) && number_under(j, "lineH"@) is Some && number_under(j, "lineH"@)->0
        >= 10 && (match under(j, "lineBg"@) {
        JsonView::Text(s) => "rgba(255, 255, 255"@.is_prefix_of(s),
        _ => false,
    })
}

/// The page did not mark the icon of a folder as running.
pub fn no_folder_dot(j: &Json) -> (r: bool)
    ensures
        r == is_flag(under(j@, "folderDot"@), false),
{
    flag_under(j, "folderDot", false)
}

/// The line of a separator can be seen.
pub fn separator_line_ok(j: &Json) -> (r: bool)
    ensures
        r == line_drawn(j@),
{
    let tall = match read_number(j, "lineH") {
        Some(n) => n >= 10,
        None => false,
    };
    proof {
        json::lemma_parts(*j);
        reveal_strlit("rgba(255, 255, 255");
    }
    let light = match j {
        Json::Object(fs) => {
            let i = json::find_field(fs, "lineBg");
            if i < fs.len() {
                assert(field_views(fs@)[i as int] == (fs@[i as int].0@, fs@[i as int].1@));
                match &fs[i].1 {
                    Json::Text(s) => text::starts_with(s.as_str(), "rgba(255, 255, 255"),
                    _ => false,
                }
            } else {
                false
            }
        },
        _ => false,
    };
    one_under(j, "lineW") && tall && light
}

/// The text of a value, empty for one that is no text.
pub open spec fn text_or_empty(j: JsonView) -> Seq<char> {
    match j {
        JsonView::Text(s) => s,
        _ => Seq::empty(),
    }
}

/// The labels of the items that the page shows.
pub open spec fn labels_in(j: JsonView) -> Seq<Seq<char>> {
    match under(j, "labels"@) {
        JsonView::Array(v) => Seq::new(v.len(), |i: int| text_or_empty(v[i])),
        _ => Seq::empty(),
    }
}

/// The labels of the items that the page shows.
pub fn menu_labels(j: &Json) -> (r: Vec<String>)
    ensures
        text_views(r@) == labels_in(j@),
{
    proof {
        json::lemma_parts(*j);
    }
    let mut r: Vec<String> = Vec::new();
    assert(text_views(r@) =~= Seq::empty());
    match j {
        Json::Object(fs) => {
            let i = json::find_field(fs, "labels");
            if i < fs.len() {
                assert(field_views(fs@)[i as int] == (fs@[i as int].0@, fs@[i as int].1@));
                proof {
                    json::lemma_parts(fs@[i as int].1);
                }
                if let Json::Array(v) = &fs[i].1 {
                    let ghost all = labels_in(j@);
                    let mut k: usize = 0;
                    while k < v.len()
                        invariant
                            k <= v@.len(),
                            all.len() == v@.len(),
                            forall|n: int|
                                0 <= n < v@.len() ==> #[trigger] all[n] == text_or_empty(v@[n]@),
                            text_views(r@) == all.take(k as int),
                        decreases v@.len() - k,
                    {
                        let label = match &v[k] {
                            Json::Text(s) => s.clone(),
                            _ => String::new(),
                        };
                        proof {
                            json::lemma_parts(v@[k as int]);
                        }
                        let ghost before = r@;
                        r.push(label);
                        assert(label@ == all[k as int]);
                        assert(text_views(r@) =~= text_views(before).push(label@));
                        assert(all.take(k + 1) =~= all.take(k as int).push(all[k as int]));
                        k += 1;
                    }
                    assert(all.take(k as int) =~= all);
                }
            }
        },
        _ => {},
    }
    r
}

/// The page shows as many items and dividers as the menu has.
pub fn menu_counts_ok(j: &Json, items: u64, dividers: u64) -> (r: bool)
    ensures
        r == (is_count(under(j@, "n"@), items as nat) && is_count(
            under(j@, "div"@),
            dividers as nat,
        )),
{
    count_under(j, "n", items) && count_under(j, "div", dividers)
}

/// The page has room for the whole menu. A number that is missing counts as too
/// large or too small.
pub fn menu_fits(j: &Json) -> (r: bool)
    ensures
        ({
            let scroll = match number_under(j@, "scroll"@) {
                Some(n) => n,
                None => -1,
            };
            let client = match number_under(j@, "client"@) {
                Some(n) => n,
                None => -2,
            };
            r == (scroll <= client)
        }),
{
    let scroll: i64 = match read_number(j, "scroll") {
        Some(n) => n,
        None => -1,
    };
    let client: i64 = match read_number(j, "client") {
        Some(n) => n,
        None => -2,
    };
    scroll <= client
}

/// The flags in an array; nothing where it holds anything else.
pub open spec fn flags_in(j: JsonView) -> Seq<bool> {
    match j {
        JsonView::Array(a) => if forall|i: int| 0 <= i < a.len() ==> #[trigger] a[i] is Bool {
            Seq::new(a.len(), |i: int| a[i]->Bool_0)
        } else {
            Seq::empty()
        },
        _ => Seq::empty(),
    }
}

/// The flags in an array; nothing where it holds anything else.
pub fn read_flags(j: &Json) -> (r: Vec<bool>)
    ensures
        r@ == flags_in(j@),
{
    proof {
        json::lemma_parts(*j);
    }
    let mut out: Vec<bool> = Vec::new();
    match j {
        Json::Array(a) => {
            let ghost all = json_views(a@);
            let mut i: usize = 0;
            while i < a.len()
                invariant
                    i <= a@.len(),
                    all == json_views(a@),
                    j@ == JsonView::Array(all),
                    out@.len() == i,
                    forall|k: int| 0 <= k < i ==> all[k] == JsonView::Bool(#[trigger] out@[k]),
                decreases a@.len() - i,
            {
                assert(all[i as int] == a@[i as int]@);
                match &a[i] {
                    Json::Bool(b) => {
                        assert(a@[i as int]@ == JsonView::Bool(*b));
                        out.push(*b);
                    },
                    _ => {
                        assert(!(all[i as int] is Bool));
                        let none: Vec<bool> = Vec::new();
                        assert(none@ =~= flags_in(j@));
                        return none;
                    },
                }
                i += 1;
            }
            proof {
                assert forall|k: int| 0 <= k < all.len() implies #[trigger] all[k] is Bool by {
                    assert(all[k] == JsonView::Bool(out@[k]));
                }
                assert(out@ =~= flags_in(j@));
            }
            out
        },
        _ => {
            assert(out@ =~= flags_in(j@));
            out
        },
    }
}

/// A document that a page reported; nothing where it is none.
pub fn read_document(text: &str) -> (r: Json)
    ensures
        r@ == match json::json_parsed(text@) {
            Some(j) => j,
            None => JsonView::Null,
        },
{
    match json::parse(text) {
        Some(j) => j,
        None => Json::Null,
    }
}

// ---------------------------------------------------------------- what holds of replies

/// What stands behind a tag is what the reply says; a reply without the tag is
/// taken whole.
pub proof fn law_tags(tag: Seq<char>, s: Seq<char>)
    ensures
        untagged(tag + s, tag) == s,
        !tag.is_prefix_of(s) ==> untagged(s, tag) == s,
{
    assert((tag + s).subrange(0, tag.len() as int) =~= tag);
    assert((tag + s).skip(tag.len() as int) =~= s);
}

/// A reply has a tag where it begins with it.
pub proof fn law_tagged_text(reply: &str, tag: &str, r: Option<String>)
    requires
        call_ensures(tagged_text, (reply, tag), r),
    ensures
        r is Some <==> tag@.is_prefix_of(reply@),
        r is Some ==> tag@ + r->0@ == reply@,
{
    if r is Some {
        assert(reply@.subrange(0, tag@.len() as int) =~= tag@);
        assert(tag@ + r->0@ =~= reply@);
    }
}

/// A point is cut at its first colon; without one it is none.
pub proof fn law_points(a: Seq<char>, b: Seq<char>)
    requires
        !a.contains(':'),
    ensures
        halves(a) is None,
        halves(a.push(':') + b) == Some((a, b)),
{
    text::lemma_first_index(a, ':');
    let i = first_index(a, ':');
    if i < a.len() {
        assert(a.contains(a[i]));
    }
    let s = a.push(':') + b;
    text::lemma_first_index(s, ':');
    let k = first_index(s, ':');
    assert(s[a.len() as int] == ':');
    if k < a.len() {
        assert(a.contains(a[k]));
    }
    assert(s.take(k) =~= a);
    assert(s.skip(k + 1) =~= b);
}

/// The digits at the beginning end where something else stands.
pub proof fn law_digits_at_the_beginning(a: Seq<char>, rest: Seq<char>)
    requires
        forall|i: int|
            0 <= i < a.len() ==> '0' <= #[trigger] a[i] && a[i] <= '9' || a[i] == '-',
        rest.len() > 0 ==> !('0' <= rest[0] && rest[0] <= '9' || rest[0] == '-'),
    ensures
        number_length(a + rest) == a.len(),
    decreases a.len(),
{
    if a.len() > 0 {
        assert((a + rest)[0] == a[0]);
        assert((a + rest).skip(1) =~= a.skip(1) + rest);
        assert forall|i: int| 0 <= i < a.skip(1).len() implies '0' <= #[trigger] a.skip(1)[i]
            && a.skip(1)[i] <= '9' || a.skip(1)[i] == '-' by {
            assert(a.skip(1)[i] == a[i + 1]);
        }
        law_digits_at_the_beginning(a.skip(1), rest);
    } else {
        assert(a + rest =~= rest);
    }
}

proof fn lemma_only_digits(n: nat)
    ensures
        forall|i: int|
            0 <= i < decimal(n).len() ==> '0' <= #[trigger] decimal(n)[i] && decimal(n)[i] <= '9',
    decreases n,
{
    if n >= 10 {
        lemma_only_digits(n / 10);
        assert forall|i: int| 0 <= i < decimal(n).len() implies '0' <= #[trigger] decimal(n)[i]
            && decimal(n)[i] <= '9' by {
            if i < decimal(n).len() - 1 {
                assert(decimal(n)[i] == decimal(n / 10)[i]);
            }
        }
    }
}

/// The second number of a move is what stands behind its first comma, whatever
/// follows; one that is no coordinate does not count.
pub proof fn law_second_number_of_a_move(a: Seq<char>, n: int, rest: Seq<char>)
    requires
        !a.contains(','),
        rest.len() > 0 ==> !('0' <= rest[0] && rest[0] <= '9' || rest[0] == '-'),
    ensures
        move_y(a) is None,
        move_y(a.push(',') + signed_decimal(n) + rest) == if -2147483648 <= n <= 2147483647 {
            Some(n)
        } else {
            None
        },
{
    text::lemma_first_index(a, ',');
    let i = first_index(a, ',');
    if i < a.len() {
        assert(a.contains(a[i]));
    }
    let d = signed_decimal(n);
    let s = a.push(',') + d + rest;
    text::lemma_first_index(s, ',');
    let k = first_index(s, ',');
    assert(s[a.len() as int] == ',');
    if k < a.len() {
        assert(a.contains(a[k]));
    }
    assert(s.skip(k + 1) =~= d + rest);
    lemma_only_digits(
        (if n < 0 {
            -n
        } else {
            n
        }) as nat,
    );
    assert forall|j: int| 0 <= j < d.len() implies '0' <= #[trigger] d[j] && d[j] <= '9' || d[j]
        == '-' by {
        if n < 0 && j > 0 {
            assert(d[j] == decimal((-n) as nat)[j - 1]);
        }
    }
    law_digits_at_the_beginning(d, rest);
    assert((d + rest).take(d.len() as int) =~= d);
    text::law_numbers_read_back(0, n);
}

/// The lowest is one of the numbers, and none of them is lower; there is one where
/// any can be read.
pub proof fn law_lowest(ps: Seq<Seq<char>>, i: int)
    ensures
        0 <= i < ps.len() && move_y(ps[i]) is Some ==> lowest(ps) is Some && lowest(ps)->0 <= move_y(
            ps[i],
        )->0,
        lowest(ps) is Some ==> exists|k: int|
            0 <= k < ps.len() && #[trigger] move_y(ps[k]) == lowest(ps),
    decreases ps.len(),
{
    if ps.len() > 0 {
        let front = ps.drop_last();
        law_lowest(front, i);
        if 0 <= i < front.len() {
            assert(front[i] == ps[i]);
        }
        if lowest(front) is Some {
            let k = choose|k: int| 0 <= k < front.len() && #[trigger] move_y(front[k]) == lowest(front);
            assert(move_y(ps[k]) == lowest(front));
        }
        assert(move_y(ps[ps.len() - 1]) == move_y(ps.last()));
    }
}

/// A drag left the window where some move was above its upper edge, which is zero.
pub proof fn law_drag_left_the_window(report: &str, r: DragReach, i: int)
    requires
        call_ensures(drag_reach, (report,), r),
        1 <= i < parts(report@, "mv "@).len(),
        move_y(parts(report@, "mv "@)[i]) is Some,
    ensures
        !(r is Unknown),
        r is Outside ==> r->Outside_0 < 0,
        r is Inside ==> r->Inside_0 >= 0,
        move_y(parts(report@, "mv "@)[i])->0 < 0 ==> r is Outside && r->Outside_0 <= move_y(
            parts(report@, "mv "@)[i],
        )->0,
        r is Inside ==> r->Inside_0 <= move_y(parts(report@, "mv "@)[i])->0,
{
    let ps = parts(report@, "mv "@).skip(1);
    assert(ps[i - 1] == parts(report@, "mv "@)[i]);
    law_lowest(ps, i - 1);
}

/// The number of sections is the number behind the first `sections=`.
pub proof fn law_sections(report: Seq<char>, n: nat)
    requires
        parts(report, "sections="@).len() >= 2,
        words(parts(report, "sections="@)[1]).len() > 0,
        words(parts(report, "sections="@)[1])[0] == decimal(n),
    ensures
        n <= u64::MAX ==> section_count(report) == n,
        n > u64::MAX ==> section_count(report) == 0,
{
    text::law_numbers_read_back(n, 0);
}

/// A report of the settings is good where it says so, counts at least two sections
/// and shows that the colour changed.
pub proof fn law_good_settings(report: &str, r: bool)
    requires
        call_ensures(settings_report_ok, (report,), r),
    ensures
        r ==> "ok "@.is_prefix_of(report@) && section_count(report@) >= 2,
        r ==> text::occurs(report@, "-> [200,60,60]@200"@),
        "ok "@.is_prefix_of(report@) && section_count(report@) >= 2 && text::occurs(
            report@,
            "-> [200,60,60]@200"@,
        ) ==> r,
        parts(report@, "sections="@).len() < 2 ==> !r,
{
}

/// What an object holds under a name is in its first field of that name; nothing
/// else holds anything.
pub proof fn law_under_a_name(fs: Seq<(Seq<char>, JsonView)>, key: Seq<char>, k: int, j: JsonView)
    requires
        0 <= k <= fs.len(),
        forall|i: int| 0 <= i < k ==> (#[trigger] fs[i]).0 != key,
        k < fs.len() ==> fs[k].0 == key,
        !(j is Object),
    ensures
        k < fs.len() ==> under(JsonView::Object(fs), key) == fs[k].1,
        k == fs.len() ==> under(JsonView::Object(fs), key) == JsonView::Null,
        under(j, key) == JsonView::Null,
{
    json::lemma_field_index(fs, key);
    let i = field_index(fs, key);
    if i < k {
        assert(fs[i].0 != key);
    }
    if k < i {
        assert(fs[k].0 != key);
    }
}

/// A separator is drawn as it should be: it is one of so many, nine pixels wide,
/// with a line, and without a dot or an image.
pub proof fn law_drawn_separator(j: JsonView, count: nat)
    ensures
        separator_drawn(j, count) <==> under(j, "n"@) == JsonView::Number(decimal(count)) && under(
            j,
            "isSep"@,
        ) == JsonView::Bool(true) && under(j, "w"@) == JsonView::Number("9"@) && under(j, "line"@)
            == JsonView::Bool(true) && under(j, "dot"@) == JsonView::Bool(false) && under(j, "img"@)
            == JsonView::Bool(false),
{
    reveal_strlit("9");
    assert(decimal(9) =~= "9"@);
}

/// Its line can be seen: one pixel wide, at least ten high, and white.
pub proof fn law_drawn_line(j: JsonView, height: int, colour: Seq<char>)
    requires
        under(j, "lineH"@) == JsonView::Number(signed_decimal(height)),
        i64::MIN <= height <= i64::MAX,
        under(j, "lineBg"@) == JsonView::Text(colour),
    ensures
        line_drawn(j) <==> height >= 10 && "rgba(255, 255, 255"@.is_prefix_of(colour) && (under(
            j,
            "lineW"@,
        ) == JsonView::Number("1"@) || under(j, "lineW"@) == JsonView::Number("1.0"@)),
{
    text::law_numbers_read_back(0, height);
}

/// The labels are those that the page lists, in its order.
pub proof fn law_labels_that_are_shown(j: JsonView, i: int)
    ensures
        under(j, "labels"@) is Array ==> labels_in(j).len() == under(j, "labels"@)->Array_0.len(),
        !(under(j, "labels"@) is Array) ==> labels_in(j).len() == 0,
        0 <= i < labels_in(j).len() && under(j, "labels"@)->Array_0[i] is Text ==> labels_in(j)[i]
            == under(j, "labels"@)->Array_0[i]->Text_0,
{
}

/// A menu is shown whole where the page counts what it has, and where nothing is
/// left to scroll to.
pub proof fn law_menu_is_shown(
    j: Json,
    items: u64,
    dividers: u64,
    scroll: int,
    client: int,
    counted: bool,
    fits: bool,
    unmarked: bool,
)
    requires
        i64::MIN <= scroll <= i64::MAX,
        i64::MIN <= client <= i64::MAX,
        under(j@, "scroll"@) == JsonView::Number(signed_decimal(scroll)),
        under(j@, "client"@) == JsonView::Number(signed_decimal(client)),
        call_ensures(menu_counts_ok, (&j, items, dividers), counted),
        call_ensures(menu_fits, (&j,), fits),
        call_ensures(no_folder_dot, (&j,), unmarked),
    ensures
        counted <==> under(j@, "n"@) == JsonView::Number(decimal(items as nat)) && under(j@, "div"@)
            == JsonView::Number(decimal(dividers as nat)),
        fits <==> scroll <= client,
        unmarked <==> under(j@, "folderDot"@) == JsonView::Bool(false),
{
    text::law_numbers_read_back(0, scroll);
    text::law_numbers_read_back(0, client);
}

/// Flags are read in their order, and only where there is nothing else.
pub proof fn law_flags(a: Seq<JsonView>, k: int, i: int)
    ensures
        0 <= k < a.len() && !(a[k] is Bool) ==> flags_in(JsonView::Array(a)).len() == 0,
        (forall|n: int| 0 <= n < a.len() ==> #[trigger] a[n] is Bool) ==> flags_in(
            JsonView::Array(a),
        ).len() == a.len() && (0 <= i < a.len() ==> JsonView::Bool(flags_in(JsonView::Array(a))[i])
            == a[i]),
{
}

/// A script stands round what it is told: an expression is evaluated as it is and
/// its value reported, or what went wrong; the element of a class is the one of
/// that place; a name is typed as one string.
pub proof fn law_scripts_hold_what_they_are_told(
    expr: &str,
    class: &str,
    index: usize,
    name: &str,
    script: String,
    centre: String,
    typed: String,
)
    requires
        call_ensures(eval_script, (expr,), script),
        call_ensures(item_center_expr, (class, index), centre),
        call_ensures(name_prompt_script, (name,), typed),
    ensures
        "(function () {\n  try {\n    const v = ("@.is_prefix_of(script@),
        ");\n    window.__TAURI_INTERNALS__.invoke('selftest_report', { msg: 'v:' + String(v) });\n  } catch (e) {\n    window.__TAURI_INTERNALS__.invoke('selftest_report', { msg: 'v:<err ' + e + '>' });\n  }\n})();"@.is_suffix_of(
            script@,
        ),
        text::occurs(script@, expr@),
        ("(function () {\n  const e = document.querySelectorAll('"@ + class@ + "')["@ + decimal(
            index as nat,
        ) + "]"@).is_prefix_of(centre@),
        text::occurs(typed@, json_literal(name@)),
{
    let a = "(function () {\n  try {\n    const v = ("@;
    let c =
        ");\n    window.__TAURI_INTERNALS__.invoke('selftest_report', { msg: 'v:' + String(v) });\n  } catch (e) {\n    window.__TAURI_INTERNALS__.invoke('selftest_report', { msg: 'v:<err ' + e + '>' });\n  }\n})();"@;
    assert(script@ == a + expr@ + c);
    assert(script@.subrange(0, a.len() as int) =~= a);
    assert(script@.subrange(script@.len() - c.len(), script@.len() as int) =~= c);
    assert(script@.subrange(a.len() as int, a.len() as int + expr@.len()) =~= expr@);
    assert(text::occurs_at(script@, expr@, a.len() as int));
    let head = "(function () {\n  const e = document.querySelectorAll('"@ + class@ + "')["@
        + decimal(index as nat);
    let tail =
        "];\n  if (!e) return '<none>';\n  const b = e.getBoundingClientRect();\n  return Math.round(b.left + b.width / 2) + ':' + Math.round(b.top + b.height / 2);\n})()"@;
    assert(centre@ == head + tail);
    reveal_strlit("]");
    reveal_strlit(
        "];\n  if (!e) return '<none>';\n  const b = e.getBoundingClientRect();\n  return Math.round(b.left + b.width / 2) + ':' + Math.round(b.top + b.height / 2);\n})()",
    );
    assert(centre@.subrange(0, (head + "]"@).len() as int) =~= head + "]"@);
    let p =
        "(function () {\n  const el = document.querySelector('.prompt-input');\n  if (!el) return;\n  const set = Object.getOwnPropertyDescriptor(HTMLInputElement.prototype, 'value').set;\n  set.call(el, "@;
    let l = json_literal(name@);
    assert(typed@.subrange(p.len() as int, p.len() as int + l.len()) =~= l);
    assert(text::occurs_at(typed@, l, p.len() as int));
}

} // verus!
