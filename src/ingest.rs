use vstd::prelude::*;
use crate::format::{message_edit, message_edit_spec, new_message, new_message_spec, MessageInfo};
use crate::store::{push_model, LogStore};
use crate::styled::SpanView;

verus! {

/// An event from the feed, with the fields the log shows.
pub enum LogEvent {
    NewMessage { message: MessageInfo, guild_name: String, channel_name: String },
    MessageEdit {
        old_if_available: Option<MessageInfo>,
        new: Option<MessageInfo>,
        message_id: String,
        guild_name: String,
        channel_name: String,
    },
    /// Any other kind of event: the log does not show it.
    Other,
}

/// The entry an event adds to the log, if any.
pub open spec fn event_entry(e: LogEvent) -> Option<Seq<Seq<SpanView>>> {
    match e {
        LogEvent::NewMessage { message, guild_name, channel_name } => Some(
            new_message_spec(message, guild_name@, channel_name@),
        ),
        LogEvent::MessageEdit { old_if_available, new, message_id, guild_name, channel_name } =>
            message_edit_spec(old_if_available, new, message_id@, guild_name@, channel_name@),
        LogEvent::Other => None,
    }
}

/// Records one event: its entry, if it has one, is pushed onto the store.
pub fn ingest(store: &mut LogStore, event: LogEvent)
    requires
        old(store).wf(),
    ensures
        final(store).wf(),
        final(store).cap() == old(store).cap(),
        final(store)@ == match event_entry(event) {
            Some(e) => push_model(old(store)@, e, old(store).cap()),
            None => old(store)@,
        },
{
    match event {
        LogEvent::NewMessage { message, guild_name, channel_name } => {
            let entry = new_message(&message, guild_name.as_str(), channel_name.as_str());
            store.push(entry);
        },
        LogEvent::MessageEdit { old_if_available, new, message_id, guild_name, channel_name } => {
            match message_edit(
                old_if_available,
                new,
                message_id.as_str(),
                guild_name.as_str(),
                channel_name.as_str(),
            ) {
                Some(entry) => store.push(entry),
                None => {},
            }
        },
        LogEvent::Other => {},
    }
}

} // verus!
