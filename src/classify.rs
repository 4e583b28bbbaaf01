//! Message-based classification of one queue item.

use vstd::prelude::*;
use crate::queue::StatusMessage;
use crate::text::{any_contains, contains_text, occurs_in};

verus! {

/// The outcome of triage for one queue item.
#[derive(Clone, Copy, Debug, PartialEq, Eq, Structural)]
pub enum Disposition {
    /// Nothing to do.
    Ignore,
    /// The episode title is still pending: refresh the item's series.
    Monitor,
    /// The item failed an upgrade check: remove it.
    Delete,
    /// The item lost a score comparison within the cycle: remove it.
    Superseded,
}

/// Reported, as a title or a message, while an episode's title is not known yet.
pub const TBA_PHRASE: &'static str = "Episode has a TBA title and recently aired";

/// Reported as a status title when a download is no better than the file on disk.
pub const NOT_UPGRADE_PHRASE: &'static str = "Not an upgrade for existing episode file(s)";

/// Reported as a message when a download's custom formats score no better.
pub const NOT_CUSTOM_FORMAT_UPGRADE_PHRASE: &'static str =
    "Not a Custom Format upgrade for existing episode file(s)";

pub open spec fn title_has(entry: StatusMessage, pattern: Seq<char>) -> bool {
    match entry.title {
        Some(t) => occurs_in(pattern, t@),
        None => false,
    }
}

pub open spec fn some_message_has(entry: StatusMessage, pattern: Seq<char>) -> bool {
    exists|j: int|
        0 <= j < entry.messages@.len() && occurs_in(pattern, #[trigger] entry.messages@[j]@)
}

/// Some text of the entry says the episode title is pending.
pub open spec fn reports_tba(entry: StatusMessage) -> bool {
    title_has(entry, TBA_PHRASE@) || some_message_has(entry, TBA_PHRASE@)
}

/// The entry says the download is not an upgrade.
pub open spec fn rejects_upgrade(entry: StatusMessage) -> bool {
    title_has(entry, NOT_UPGRADE_PHRASE@) || some_message_has(
        entry,
        NOT_CUSTOM_FORMAT_UPGRADE_PHRASE@,
    )
}

/// The rules for one entry, tried in order: pending title, then failed upgrade.
pub open spec fn entry_disposition(entry: StatusMessage) -> Disposition {
    if reports_tba(entry) {
        Disposition::Monitor
    } else if rejects_upgrade(entry) {
        Disposition::Delete
    } else {
        Disposition::Ignore
    }
}

/// The disposition of the first entry that decides anything; `Ignore` if none does.
pub open spec fn messages_disposition(entries: Seq<StatusMessage>) -> Disposition
    decreases entries.len(),
{
    if entries.len() == 0 {
        Disposition::Ignore
    } else if entry_disposition(entries[0]) != Disposition::Ignore {
        entry_disposition(entries[0])
    } else {
        messages_disposition(entries.drop_first())
    }
}

/// Messages alone never supersede an item.
pub proof fn lemma_messages_never_supersede(entries: Seq<StatusMessage>)
    ensures
        messages_disposition(entries) != Disposition::Superseded,
    decreases entries.len(),
{
    if entries.len() > 0 {
        lemma_messages_never_supersede(entries.drop_first());
    }
}

fn title_contains(entry: &StatusMessage, pattern: &str) -> (r: bool)
    ensures
        r == title_has(*entry, pattern@),
{
    match &entry.title {
        Some(t) => contains_text(t.as_str(), pattern),
        None => false,
    }
}

/// Applies the rules to one status entry.
pub fn classify_entry(entry: &StatusMessage) -> (d: Disposition)
    ensures
        d == entry_disposition(*entry),
{
    if title_contains(entry, TBA_PHRASE) || any_contains(&entry.messages, TBA_PHRASE) {
        Disposition::Monitor
    } else if title_contains(entry, NOT_UPGRADE_PHRASE) || any_contains(
        &entry.messages,
        NOT_CUSTOM_FORMAT_UPGRADE_PHRASE,
    ) {
        Disposition::Delete
    } else {
        Disposition::Ignore
    }
}

/// Scans the status entries in order and stops at the first that decides.
pub fn classify_messages(entries: &Vec<StatusMessage>) -> (d: Disposition)
    ensures
        d == messages_disposition(entries@),
        d != Disposition::Superseded,
{
    let mut i: usize = 0;
    assert(entries@.subrange(0, entries@.len() as int) =~= entries@);
    while i < entries.len()
        invariant
            i <= entries@.len(),
            messages_disposition(entries@) == messages_disposition(
                entries@.subrange(i as int, entries@.len() as int),
            ),
        decreases entries@.len() - i,
    {
        let d = classify_entry(&entries[i]);
        assert(entries@.subrange(i as int, entries@.len() as int).drop_first() =~= entries@.subrange(
            i + 1,
            entries@.len() as int,
        ));
        if d != Disposition::Ignore {
            return d;
        }
        i += 1;
    }
    Disposition::Ignore
}

} // verus!
