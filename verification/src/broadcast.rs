//! The broadcaster: who gets a notice that goes to a whole table.

use vstd::prelude::*;
use crate::identity::PlayerId;
use crate::messages::ResponseMessages;
use crate::round::Broadcast;
use crate::table::Table;

verus! {

/// The players left out of a notice, as a set.
pub open spec fn excluded(except: Option<Vec<PlayerId>>) -> Set<PlayerId> {
    match except {
        Some(ids) => ids@.to_set(),
        None => Set::empty(),
    }
}

/// Addresses `response_message` to every player of `table` whose outbound
/// channel is open, but for those in `except`. A player whose channel is
/// closed is passed over in silence.
pub fn broadcast_response_message(
    table: &Table,
    except: Option<Vec<PlayerId>>,
    response_message: ResponseMessages,
) -> (notice: Broadcast)
    ensures
        notice.message == response_message,
        table@.reaches(notice.recipients@, excluded(except)),
{
    let recipients = match &except {
        Some(ids) => table.recipients(ids),
        None => {
            let nobody: Vec<PlayerId> = Vec::new();
            assert(nobody@.to_set() =~= Set::<PlayerId>::empty());
            table.recipients(&nobody)
        },
    };
    Broadcast { recipients, message: response_message }
}

} // verus!
