//! The window that asks for a name: one question at a time, answered once.

use vstd::prelude::*;
use vstd::string::*;
use crate::geometry::{between, fits, half, halved, max_i64, max_of, min_i64, min_of, Rect};

verus! {

/// A question as its page shows it.
#[derive(Debug)]
pub struct PromptPayload {
    pub seq: u64,
    pub title: String,
    pub label: String,
    /// What stands in the field at first.
    pub value: String,
    pub max_length: usize,
}

impl Clone for PromptPayload {
    fn clone(&self) -> (r: Self)
        ensures
            r == *self,
    {
        PromptPayload {
            seq: self.seq,
            title: self.title.clone(),
            label: self.label.clone(),
            value: self.value.clone(),
            max_length: self.max_length,
        }
    }
}

/// The question that is open, and the number of the last one.
#[derive(Debug)]
pub struct Prompt {
    pub cur: Option<PromptPayload>,
    pub seq: u64,
}

impl Prompt {
    /// No question yet.
    pub fn new() -> (r: Self)
        ensures
            r.cur is None,
            r.seq == 0,
    {
        Prompt { cur: None, seq: 0 }
    }
}

/// The open question.
pub fn payload(p: &Prompt) -> (r: Option<PromptPayload>)
    ensures
        r == p.cur,
{
    match &p.cur {
        Some(o) => Some(o.clone()),
        None => None,
    }
}

/// Opens a question. Where one is open already there is no second: `None`.
pub fn open_question(
    p: &mut Prompt,
    title: &str,
    label: &str,
    default_value: &str,
    max_length: usize,
) -> (r: Option<PromptPayload>)
    ensures
        old(p).cur is Some ==> r is None && *final(p) == *old(p),
        old(p).cur is None ==> {
            &&& r is Some
            &&& r->0.seq == old(p).seq.wrapping_add(1)
            &&& r->0.title@ == title@
            &&& r->0.label@ == label@
            &&& r->0.value@ == default_value@
            &&& r->0.max_length == max_length
            &&& final(p).cur == r
            &&& final(p).seq == r->0.seq
        },
{
    if p.cur.is_some() {
        return None;
    }
    let seq: u64 = p.seq.wrapping_add(1);
    let q = PromptPayload {
        seq,
        title: title.to_owned(),
        label: label.to_owned(),
        value: default_value.to_owned(),
        max_length,
    };
    p.seq = seq;
    p.cur = Some(q.clone());
    Some(q)
}

/// Whether the window of a question has to be shown: its page is drawn, or was
/// waited for long enough, and the question is still open.
pub fn ready(p: &Prompt, seq: u64) -> (r: bool)
    ensures
        r == (p.cur is Some && p.cur->0.seq == seq),
{
    match &p.cur {
        Some(o) => o.seq == seq,
        None => false,
    }
}

/// The state after the open question was closed with an answer, and what the
/// asker receives.
pub open spec fn finished(p: Prompt, value: Option<String>) -> (Prompt, Option<Option<String>>) {
    (
        Prompt { cur: None, seq: p.seq },
        if p.cur is Some {
            Some(value)
        } else {
            None
        },
    )
}

/// Closes the open question with an answer. Gives what the asker receives;
/// `None` where no question is open.
pub fn finish(p: &mut Prompt, value: Option<String>) -> (r: Option<Option<String>>)
    ensures
        (*final(p), r) == finished(*old(p), value),
{
    match p.cur.take() {
        Some(_) => Some(value),
        None => None,
    }
}

/// The user gave a text. Gives what the asker receives.
pub fn submit(p: &mut Prompt, text: String) -> (r: Option<Option<String>>)
    ensures
        (*final(p), r) == finished(*old(p), Some(text)),
{
    finish(p, Some(text))
}

/// The user gave up. Gives what the asker receives.
pub fn cancel(p: &mut Prompt) -> (r: Option<Option<String>>)
    ensures
        (*final(p), r) == finished(*old(p), None::<String>),
{
    finish(p, None)
}

/// Where the window stands: centred above the dock, below it where there is no
/// room, within the work area.
pub open spec fn prompt_placed(dock: Rect, area: Rect, gap: i32, w: i32, h: i32) -> (int, int) {
    let x = between(
        dock.left + half(dock.right - dock.left - w),
        area.left + 8,
        max_of(area.right - w - 8, area.left + 8),
    );
    let above = dock.top - h - gap;
    let y = if above < area.top + 8 {
        min_of(dock.bottom + gap, max_of(area.bottom - h - 8, area.top + 8))
    } else {
        above
    };
    (x, y)
}

/// Where the window of a given size stands.
pub fn place_prompt(dock: &Rect, area: &Rect, gap: i32, w: i32, h: i32) -> (r: (i32, i32))
    requires
        ({
            let (x, y) = prompt_placed(*dock, *area, gap, w, h);
            fits(x) && fits(y)
        }),
    ensures
        (r.0 as int, r.1 as int) == prompt_placed(*dock, *area, gap, w, h),
{
    let (wide, high): (i64, i64) = (w as i64, h as i64);
    let inset: i64 = halved(dock.right as i64 - dock.left as i64 - wide);
    let lo: i64 = area.left as i64 + 8;
    let hi: i64 = max_i64(area.right as i64 - wide - 8, lo);
    let x: i64 = min_i64(max_i64(dock.left as i64 + inset, lo), hi);
    let highest: i64 = area.top as i64 + 8;
    let mut y: i64 = dock.top as i64 - high - gap as i64;
    if y < highest {
        y = min_i64(
            dock.bottom as i64 + gap as i64,
            max_i64(area.bottom as i64 - high - 8, highest),
        );
    }
    (x as i32, y as i32)
}

/// A question is answered at most once: after an answer there is nothing left to
/// answer.
pub proof fn law_answered_once(p: Prompt, first: Option<String>, second: Option<String>)
    ensures
        p.cur is Some ==> finished(p, first).1 == Some(first),
        finished(finished(p, first).0, second).1 is None,
{
}

/// There is one question at a time: while one is open no other opens and nothing
/// changes. One that opens has the next number and shows what was asked.
pub proof fn law_one_question_at_a_time(
    p: &mut Prompt,
    title: &str,
    label: &str,
    value: &str,
    max_length: usize,
    r: Option<PromptPayload>,
)
    requires
        call_ensures(open_question, (p, title, label, value, max_length), r),
    ensures
        r is Some <==> old(p).cur is None,
        r is None ==> *final(p) == *old(p),
        r is Some ==> {
            &&& final(p).cur == r
            &&& r->0.title@ == title@ && r->0.label@ == label@ && r->0.value@ == value@
            &&& r->0.max_length == max_length
            &&& old(p).seq < u64::MAX ==> r->0.seq == old(p).seq + 1
            &&& final(p).seq == r->0.seq
        },
{
}

/// The asker of an open question receives exactly what the user gave, and nobody
/// receives anything where no question is open. Afterwards none is open, and the
/// numbers go on.
pub proof fn law_the_answer_arrives(p: Prompt, value: Option<String>)
    ensures
        p.cur is Some ==> finished(p, value).1 == Some(value),
        p.cur is None ==> finished(p, value).1 is None,
        finished(p, value).0.cur is None,
        finished(p, value).0.seq == p.seq,
{
}

/// A text that is submitted arrives as that text, giving up arrives as nothing.
pub proof fn law_submit_and_cancel(
    p: &mut Prompt,
    q: &mut Prompt,
    text: String,
    r: Option<Option<String>>,
    n: Option<Option<String>>,
)
    requires
        call_ensures(submit, (p, text), r),
        call_ensures(cancel, (q,), n),
    ensures
        old(p).cur is Some ==> r == Some(Some(text)),
        old(q).cur is Some ==> n == Some(None::<String>),
        final(p).cur is None && final(q).cur is None,
{
}

/// Only the window of the question that is open is shown.
pub proof fn law_only_the_open_question_is_shown(p: Prompt, seq: u64, r: bool)
    requires
        call_ensures(ready, (&p, seq), r),
    ensures
        r <==> p.cur is Some && p.cur->0.seq == seq,
{
}

/// The window stands in the middle of the dock's width where the work area has
/// room for that, with eight pixels to its edges; above the dock where there is
/// room, else below it or at the lower end.
pub proof fn law_prompt_above_the_dock(dock: Rect, area: Rect, gap: i32, w: i32, h: i32)
    requires
        0 <= w <= dock.right - dock.left,
    ensures
        ({
            let (x, y) = prompt_placed(dock, area, gap, w, h);
            let wish = dock.left + (dock.right - dock.left - w) / 2;
            &&& area.left + 8 <= wish && wish + w <= area.right - 8 ==> x == wish
            &&& area.left + 8 <= x
            &&& area.left + 8 <= area.right - w - 8 ==> x + w <= area.right - 8
            &&& dock.top - h - gap >= area.top + 8 ==> y + h == dock.top - gap
            &&& dock.top - h - gap < area.top + 8 && dock.bottom + gap + h <= area.bottom - 8 ==> y
                == dock.bottom + gap
            &&& dock.top - h - gap < area.top + 8 ==> y <= dock.bottom + gap
        }),
{
}

/// The open question is told as it is, and none where none is open.
pub proof fn law_the_question_is_told(p: Prompt, r: Option<PromptPayload>)
    requires
        call_ensures(payload, (&p,), r),
    ensures
        r is Some <==> p.cur is Some,
        r is Some ==> r->0 == p.cur->0,
{
}

} // verus!
