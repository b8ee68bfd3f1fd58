//! Picking an application by hand.

use vstd::prelude::*;
use vstd::string::*;
use crate::apps;
use crate::apps::target_id;
use crate::drop::{answer_view, note, OutcomeView};
use crate::model::{pinned_views, PinnedApp};
use crate::store;
use crate::store::{pinned_with, plain_entry};
use crate::text;

verus! {

/// Why a picked file was not put on the dock.
#[derive(Debug)]
pub struct Refusal {
    /// What is shown on the dock.
    pub note: String,
    pub why: String,
}

/// Puts a picked file at the end of the dock, by the same rules as a dropped
/// one. `target` is what launching it opens, `name` its name.
pub fn pick_and_pin(
    pinned: &mut Vec<PinnedApp>,
    file_name: &str,
    target: Result<String, String>,
    name: &str,
) -> (r: Result<(), Refusal>)
    ensures
        match answer_view(target) {
            Ok(t) => r is Ok && pinned_views(final(pinned)@) == pinned_with(
                pinned_views(old(pinned)@),
                plain_entry(target_id(t), name@, t),
            ),
            Err(why) => r is Err && r->Err_0.why@ == why && r->Err_0.note@ == note(
                OutcomeView::Rejected { name: file_name@, why },
            ) && pinned_views(final(pinned)@) == pinned_views(old(pinned)@),
        },
{
    match target {
        Ok(t) => {
            let entry = PinnedApp {
                id: apps::id_for_target(t.as_str()),
                display_name: name.to_owned(),
                target: t,
                separator: false,
                is_folder: false,
                children: Vec::new(),
            };
            assert(entry@.children =~= Seq::empty());
            assert(entry@ == plain_entry(target_id(t@), name@, t@));
            let _ = store::pin(pinned, entry);
            Ok(())
        },
        Err(why) => Err(
            Refusal { note: text::concat3(file_name, "：", why.as_str()), why },
        ),
    }
}

/// A file that is picked stands last on the dock, with its name and what it
/// opens, unless one that opens the same is there: then the list stays. A file
/// that cannot be added leaves the list as it is, and the file and the reason are
/// told.
pub proof fn law_picked_file_stands_last(
    pinned: &mut Vec<PinnedApp>,
    file_name: &str,
    target: Result<String, String>,
    name: &str,
    r: Result<(), Refusal>,
)
    requires
        call_ensures(pick_and_pin, (pinned, file_name, target, name), r),
    ensures
        r is Ok <==> target is Ok,
        ({
            let before = pinned_views(old(pinned)@);
            let after = pinned_views(final(pinned)@);
            let known = exists|i: int|
                0 <= i < before.len() && (#[trigger] before[i]).id == target_id(target->Ok_0@);
            &&& target is Ok && known ==> after == before
            &&& target is Ok && !known ==> {
                &&& after.len() == before.len() + 1
                &&& after.drop_last() == before
                &&& after.last().id == target_id(target->Ok_0@)
                &&& after.last().display_name == name@
                &&& after.last().target == target->Ok_0@
                &&& !after.last().separator
                &&& !after.last().is_folder
                &&& after.last().children.len() == 0
            }
            &&& target is Err ==> after == before && r->Err_0.why@ == target->Err_0@
                && r->Err_0.note@ == file_name@ + "："@ + target->Err_0@
        }),
{
    let before = pinned_views(old(pinned)@);
    if target is Ok {
        let e = plain_entry(target_id(target->Ok_0@), name@, target->Ok_0@);
        assert(before.push(e).drop_last() =~= before);
    }
}

} // verus!
