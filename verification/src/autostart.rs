//! Starting with the system: what is written for it, and what the answers mean.

use vstd::prelude::*;
use vstd::string::*;
use crate::text;
use crate::text::{signed_decimal, without_trailing};

verus! {

/// What is registered for a program: its path in quotes.
pub open spec fn quoted(exe: Seq<char>) -> Seq<char> {
    "\""@ + exe + "\""@
}

/// What is registered for a program.
pub fn entry_value(exe: &str) -> (r: String)
    ensures
        r@ == quoted(exe@),
{
    text::concat3("\"", exe, "\"")
}

/// A registered text without the zeros that end it.
pub fn current_entry(raw: &str) -> (r: String)
    ensures
        r@ == without_trailing(raw@, '\0'),
{
    text::trim_end_char(raw, '\0')
}

/// What came of registering: whether the place could be opened, and the code.
pub fn enable(opened: bool, code: u32) -> (r: Result<(), String>)
    ensures
        match r {
            Ok(_) => opened && code == 0,
            Err(e) => if opened {
                code != 0 && e@ == "写入注册表失败 (code="@ + signed_decimal(code as int) + ")"@
            } else {
                e@ == "无法打开 HKCU Run 注册表项"@
            },
        },
{
    if !opened {
        Err("无法打开 HKCU Run 注册表项".to_owned())
    } else if code == 0 {
        Ok(())
    } else {
        Err(
            text::concat3("写入注册表失败 (code=", text::signed_string(code as i64).as_str(), ")"),
        )
    }
}

/// What came of taking it out: that nothing was there is no failure, nor that
/// the place could not be opened.
pub fn disable(opened: bool, code: u32) -> (r: Result<(), String>)
    ensures
        match r {
            Ok(_) => !opened || code == 0 || code == 2,
            Err(e) => opened && code != 0 && code != 2 && e@ == "删除注册表值失败 (code="@
                + signed_decimal(code as int) + ")"@,
        },
{
    if !opened || code == 0 || code == 2 {
        Ok(())
    } else {
        Err(
            text::concat3("删除注册表值失败 (code=", text::signed_string(code as i64).as_str(), ")"),
        )
    }
}

/// What is registered reads back as it was written, whatever number of zeros
/// ends it.
pub proof fn law_entry_reads_back(exe: Seq<char>, zeros: nat)
    ensures
        without_trailing(quoted(exe) + Seq::new(zeros, |i: int| '\0'), '\0') == quoted(exe),
    decreases zeros,
{
    reveal_strlit("\"");
    let tail = Seq::new(zeros, |i: int| '\0');
    let all = quoted(exe) + tail;
    if zeros > 0 {
        law_entry_reads_back(exe, (zeros - 1) as nat);
        assert(all.last() == '\0');
        assert(all.drop_last() =~= quoted(exe) + Seq::new((zeros - 1) as nat, |i: int| '\0'));
    } else {
        assert(all =~= quoted(exe));
        assert(all.last() == '"');
    }
}

/// What is registered is the path between two quotes, and nothing else.
pub proof fn law_path_in_quotes(exe: Seq<char>)
    ensures
        quoted(exe).len() == exe.len() + 2,
        quoted(exe)[0] == '"',
        quoted(exe).last() == '"',
        quoted(exe).subrange(1, exe.len() as int + 1) == exe,
{
    reveal_strlit("\"");
    assert(quoted(exe).subrange(1, exe.len() as int + 1) =~= exe);
}

/// What a registered text reads as is the text up to the zeros that end it.
pub proof fn law_entry_without_zeros(raw: &str, r: String)
    requires
        call_ensures(current_entry, (raw,), r),
    ensures
        r@.is_prefix_of(raw@),
        r@.len() > 0 ==> r@.last() != '\0',
        forall|i: int| r@.len() <= i < raw@.len() ==> #[trigger] raw@[i] == '\0',
{
    text::law_nothing_but_the_end_goes(raw@, '\0');
}

/// Registering works where the place could be opened and the code is zero. Taking
/// out also works where there is no place or nothing there, which is code two.
/// Any other code is told in decimal.
pub proof fn law_registering(
    opened: bool,
    code: u32,
    put_in: Result<(), String>,
    taken_out: Result<(), String>,
)
    requires
        call_ensures(enable, (opened, code), put_in),
        call_ensures(disable, (opened, code), taken_out),
    ensures
        put_in is Ok <==> opened && code == 0,
        taken_out is Ok <==> !opened || code == 0 || code == 2,
        !opened ==> put_in->Err_0@ == "无法打开 HKCU Run 注册表项"@,
        opened && code != 0 ==> put_in->Err_0@ == "写入注册表失败 (code="@ + text::decimal(
            code as nat,
        ) + ")"@,
        taken_out is Err ==> taken_out->Err_0@ == "删除注册表值失败 (code="@ + text::decimal(
            code as nat,
        ) + ")"@,
{
}

} // verus!
