//! The menu of the groups of one category, as markup.

use vstd::prelude::*;
use vstd::slice::slice_subrange;
use vstd::utf8::*;
use crate::decimal::{decimal_string, decimal_text, natural_string, natural_text};
use crate::group::{GroupStatus, LogGroup};
use crate::text::{
    contains_bytes,
    extend_bytes,
    first_line,
    first_line_len,
    has_part,
    has_prefix,
    starts_with_bytes,
};

verus! {

/// Where a report came from, as its reporter's version text tells.
#[derive(Debug)]
pub struct VersionInfo {
    /// Empty where the version text names no branch.
    pub branch: String,
    /// 0 for the lobby, any other number for a game.
    pub game_id: i32,
}

/// One group of the menu.
#[derive(Debug)]
pub struct MenuEntry {
    pub group: LogGroup,
    /// Where the group's first reporter came from, if that reporter is still
    /// stored and its version text could be read.
    pub origin: Option<VersionInfo>,
}

/// The page that lists the groups of a category.
#[derive(Debug)]
pub enum Listing {
    /// There is no group of the category.
    Empty,
    /// The items of the menu, and what stands at the head of the page.
    Menu { items: Vec<u8>, head: Vec<u8> },
}

/// Whether the query of a request asks for protocol errors to be shown too:
/// it does where `show_proto_err` stands anywhere in it.
pub open spec fn asks_for_protocol_errors(query: Seq<char>) -> bool {
    has_part(encode_utf8(query), encode_utf8("show_proto_err"@))
}

/// Whether the query of a request asks for protocol errors to be shown too.
pub fn shows_protocol_errors(query: &str) -> (shown: bool)
    ensures
        shown == asks_for_protocol_errors(query@),
{
    contains_bytes(query.as_bytes(), "show_proto_err".as_bytes())
}

/// Whether a group whose message begins with `line` is a protocol error.
pub open spec fn is_protocol_error(line: Seq<u8>) -> bool {
    ||| has_prefix(line, encode_utf8("LUA ERROR: type mismatch for"@))
    ||| has_prefix(line, encode_utf8("LUA ERROR: unfinished bytes"@))
}

/// Whether the menu leaves `entry` out: protocol errors, unless they were
/// asked for.
pub open spec fn is_hidden(entry: MenuEntry, show_protocol_errors: bool) -> bool {
    !show_protocol_errors && is_protocol_error(first_line(encode_utf8(entry.group.message@)))
}

/// The class of the dot before a group: red while it is open, green once
/// resolved, yellow when reopened.
pub open spec fn dot_class(status: GroupStatus) -> Seq<char> {
    match status {
        GroupStatus::Open => "red-dot"@,
        GroupStatus::Resolved => "green-dot"@,
        GroupStatus::Reopened => "yellow-dot"@,
    }
}

/// `base` followed by the label of where a report came from: the lobby,
/// with its branch if it has one, or a game by its number. A report of
/// unknown origin counts for the lobby.
pub open spec fn with_origin(base: Seq<u8>, origin: Option<VersionInfo>) -> Seq<u8> {
    match origin {
        Some(info) => if info.game_id == 0 {
            if info.branch@.len() == 0 {
                base + encode_utf8("[Lobby]"@)
            } else {
                base + encode_utf8("[Lobby("@) + encode_utf8(info.branch@) + encode_utf8(")]"@)
            }
        } else {
            base + encode_utf8("[Game"@) + encode_utf8(decimal_text(info.game_id as int))
                + encode_utf8("]"@)
        },
        None => base + encode_utf8("[Lobby]"@),
    }
}

/// `base` followed by the item of `entry`, the `number`-th of the menu: its
/// dot, its key, its number, where it came from, how often it was reported,
/// and the first line of its message.
pub open spec fn with_item(base: Seq<u8>, number: nat, entry: MenuEntry) -> Seq<u8> {
    let hash = encode_utf8(entry.group.hash@);
    let opened = base + encode_utf8("\n            <li class=\""@) + encode_utf8(
        dot_class(entry.group.status),
    ) + encode_utf8("\" id=item-"@) + hash + encode_utf8(" onclick=\"onClickMenu('"@) + hash
        + encode_utf8("', event.currentTarget)\">("@) + encode_utf8(natural_text(number))
        + encode_utf8(")"@);
    with_origin(opened, entry.origin) + encode_utf8("<"@) + encode_utf8(
        natural_text(entry.group.total_count as nat),
    ) + encode_utf8(">"@) + first_line(encode_utf8(entry.group.message@)) + encode_utf8(
        "</li>"@,
    )
}

/// How many of `entries` the menu shows.
pub open spec fn shown_count(entries: Seq<MenuEntry>, show_protocol_errors: bool) -> nat
    decreases entries.len(),
{
    if entries.len() == 0 {
        0
    } else {
        shown_count(entries.drop_last(), show_protocol_errors) + if is_hidden(
            entries.last(),
            show_protocol_errors,
        ) {
            0nat
        } else {
            1nat
        }
    }
}

/// The items of the menu: one for each entry that is not hidden, in the
/// order given, numbered from 1 among those shown.
pub open spec fn menu_text(entries: Seq<MenuEntry>, show_protocol_errors: bool) -> Seq<u8>
    decreases entries.len(),
{
    if entries.len() == 0 {
        Seq::empty()
    } else {
        let earlier = menu_text(entries.drop_last(), show_protocol_errors);
        if is_hidden(entries.last(), show_protocol_errors) {
            earlier
        } else {
            with_item(
                earlier,
                shown_count(entries.drop_last(), show_protocol_errors) + 1,
                entries.last(),
            )
        }
    }
}

/// What stands at the head of the page of category `log_type`: nothing for
/// an elevated caller, and for any other the button that asks for all
/// groups of the category to be removed.
pub open spec fn head_text(is_admin: bool, log_type: Seq<char>) -> Seq<u8> {
    if is_admin {
        Seq::empty()
    } else {
        Seq::<u8>::empty() + encode_utf8("<div class=\"red-button\" onclick=\"removeAllLogs('"@)
            + encode_utf8(log_type) + encode_utf8(
            "')\" style=\"width: 100px; text-align: center;\"> \u{5220}\u{9664}\u{6240}\u{6709} </div>"@,
        )
    }
}

/// No more entries are shown than there are.
pub proof fn lemma_shown_count_bounded(entries: Seq<MenuEntry>, show_protocol_errors: bool)
    ensures
        shown_count(entries, show_protocol_errors) <= entries.len(),
    decreases entries.len(),
{
    if entries.len() > 0 {
        lemma_shown_count_bounded(entries.drop_last(), show_protocol_errors);
    }
}

/// Appends the bytes of `text`.
fn push_text(out: &mut Vec<u8>, text: &str)
    ensures
        final(out)@ == old(out)@ + encode_utf8(text@),
{
    extend_bytes(out, text.as_bytes());
}

/// Appends the label of where a report came from.
fn push_origin(out: &mut Vec<u8>, origin: &Option<VersionInfo>)
    ensures
        final(out)@ == with_origin(old(out)@, *origin),
{
    match origin {
        Some(info) => {
            if info.game_id == 0 {
                if info.branch.as_str().is_empty() {
                    push_text(out, "[Lobby]");
                } else {
                    push_text(out, "[Lobby(");
                    push_text(out, info.branch.as_str());
                    push_text(out, ")]");
                }
            } else {
                push_text(out, "[Game");
                let number = decimal_string(info.game_id as i64);
                push_text(out, number.as_str());
                push_text(out, "]");
            }
        },
        None => {
            push_text(out, "[Lobby]");
        },
    }
}

/// Appends the item of `entry`, the `number`-th of the menu.
fn push_item(out: &mut Vec<u8>, number: u64, entry: &MenuEntry)
    ensures
        final(out)@ == with_item(old(out)@, number as nat, *entry),
{
    let group = &entry.group;
    push_text(out, "\n            <li class=\"");
    match group.status {
        GroupStatus::Open => push_text(out, "red-dot"),
        GroupStatus::Resolved => push_text(out, "green-dot"),
        GroupStatus::Reopened => push_text(out, "yellow-dot"),
    }
    push_text(out, "\" id=item-");
    push_text(out, group.hash.as_str());
    push_text(out, " onclick=\"onClickMenu('");
    push_text(out, group.hash.as_str());
    push_text(out, "', event.currentTarget)\">(");
    let number_text = natural_string(number);
    push_text(out, number_text.as_str());
    push_text(out, ")");
    push_origin(out, &entry.origin);
    push_text(out, "<");
    let count_text = natural_string(group.total_count);
    push_text(out, count_text.as_str());
    push_text(out, ">");
    let message = group.message.as_str().as_bytes();
    let line = slice_subrange(message, 0, first_line_len(message));
    extend_bytes(out, line);
    push_text(out, "</li>");
}

/// Whether the menu leaves `entry` out.
pub fn hides(entry: &MenuEntry, show_protocol_errors: bool) -> (hidden: bool)
    ensures
        hidden == is_hidden(*entry, show_protocol_errors),
{
    if show_protocol_errors {
        return false;
    }
    let message = entry.group.message.as_str().as_bytes();
    let line = slice_subrange(message, 0, first_line_len(message));
    starts_with_bytes(line, "LUA ERROR: type mismatch for".as_bytes()) || starts_with_bytes(
        line,
        "LUA ERROR: unfinished bytes".as_bytes(),
    )
}

/// The page that lists the groups of category `log_type`.
///
/// `entries` holds the groups of the category in the order in which they
/// are listed. Each group that is shown gets one item: a dot by its status,
/// its number among those shown, where its first reporter came from, how
/// often it was reported, and the first line of its message. Protocol
/// errors are left out unless `show_protocol_errors` is set. With no group
/// at all the page is the empty one.
pub fn log_content(
    is_admin: bool,
    log_type: &str,
    show_protocol_errors: bool,
    entries: &Vec<MenuEntry>,
) -> (page: Listing)
    ensures
        entries@.len() == 0 ==> page is Empty,
        entries@.len() > 0 ==> {
            &&& page matches Listing::Menu { items, head }
            &&& items@ == menu_text(entries@, show_protocol_errors)
            &&& head@ == head_text(is_admin, log_type@)
        },
{
    if entries.len() == 0 {
        return Listing::Empty;
    }
    let mut items: Vec<u8> = Vec::new();
    let mut shown: u64 = 0;
    let mut i: usize = 0;
    while i < entries.len()
        invariant
            i <= entries.len(),
            shown == shown_count(entries@.take(i as int), show_protocol_errors),
            shown <= i,
            items@ == menu_text(entries@.take(i as int), show_protocol_errors),
        decreases entries.len() - i,
    {
        proof {
            assert(entries@.take(i + 1).drop_last() =~= entries@.take(i as int));
        }
        if !hides(&entries[i], show_protocol_errors) {
            shown = shown + 1;
            push_item(&mut items, shown, &entries[i]);
        }
        i = i + 1;
    }
    assert(entries@.take(entries.len() as int) =~= entries@);
    let mut head: Vec<u8> = Vec::new();
    if !is_admin {
        push_text(&mut head, "<div class=\"red-button\" onclick=\"removeAllLogs('");
        push_text(&mut head, log_type);
        push_text(
            &mut head,
            "')\" style=\"width: 100px; text-align: center;\"> \u{5220}\u{9664}\u{6240}\u{6709} </div>",
        );
    }
    Listing::Menu { items, head }
}

} // verus!
