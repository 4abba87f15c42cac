//! The viewing session's decisions.
//!
//! A session first checks that the ledger is bound to the device it runs on,
//! then loops: the caller presents the registered documents, the user picks
//! one by its listing number, the open-count policy is checked, and page
//! navigation runs inside the bounds the ledger records. The surrounding
//! window and input handling stay outside; every decision is made here.

use vstd::prelude::*;

use crate::errors::VaultError;
use crate::ledger::{
    contains_key, doc_of, spec_can_open, spec_record_open, MetaDataView, DB,
};
use crate::naming::{decimal_string, spec_decimal};
use crate::strings::str_eq;

verus! {

/// Whether a ledger bound to device `recorded` may run on device `current`.
pub open spec fn spec_device_ok(recorded: Seq<char>, current: Seq<char>) -> bool {
    recorded == current
}

/// Device binding: any ledger whose recorded device identity differs from
/// the current device's identity is refused, whatever the pair of values.
pub proof fn lemma_device_binding(recorded: Seq<char>, current: Seq<char>)
    ensures
        recorded != current ==> !spec_device_ok(recorded, current),
{
}

/// The device-binding enforcement point: the ledger's recorded identity must
/// equal the current device's identity, a plain equality check. A mismatch
/// is fatal; the caller must abort without granting access.
pub fn verify_device(db: &DB, current_usb_id: &str) -> (r: Result<(), VaultError>)
    ensures
        r is Ok <==> spec_device_ok(db@.usb_id, current_usb_id@),
        r is Err ==> r == Err::<(), VaultError>(VaultError::DeviceMismatch),
{
    if str_eq(db.usb_id.as_str(), current_usb_id) {
        Ok(())
    } else {
        Err(VaultError::DeviceMismatch)
    }
}

/// Open-count policy: a count still at the ceiling admits one more viewing,
/// a count one past the ceiling is refused, and granting a viewing never
/// lowers the count.
pub proof fn lemma_open_count_policy(m: MetaDataView)
    ensures
        m.file_open_count == m.max_files_open_count ==> spec_can_open(m),
        m.file_open_count == m.max_files_open_count + 1 ==> !spec_can_open(m),
        spec_record_open(m).file_open_count >= m.file_open_count,
{
}

/// Resolve the number a user typed at the listing to a document. The listing
/// shows documents numbered from one in ledger order; the input must be
/// exactly such a number's decimal form.
pub fn resolve_selection(db: &DB, input: &str) -> (r: Option<usize>)
    ensures
        r matches Some(i) ==> i < db@.docs.len() && input@ == spec_decimal((i + 1) as nat),
        r is None ==> forall|i: int|
            0 <= i < db@.docs.len() ==> input@ != #[trigger] spec_decimal((i + 1) as nat),
{
    let n = db.data.len();
    let mut i: usize = 0;
    while i < n
        invariant
            i <= n,
            n == db@.docs.len(),
            forall|j: int| 0 <= j < i ==> input@ != #[trigger] spec_decimal((j + 1) as nat),
        decreases n - i,
    {
        let label = decimal_string(i + 1);
        if str_eq(input, label.as_str()) {
            return Some(i);
        }
        i = i + 1;
    }
    None
}

/// One page-navigation request from the display surface.
pub enum NavigationEvent {
    /// Step to the following page.
    NextPage,
    /// Step to the preceding page.
    PreviousPage,
    /// Leave the document.
    Exit,
}

/// The page shown after a navigation request: forward and backward steps
/// stop at the document's bounds, leaving the document keeps the page.
pub open spec fn spec_navigate(page: int, page_count: int, ev: NavigationEvent) -> int {
    match ev {
        NavigationEvent::NextPage => if page + 1 < page_count {
            page + 1
        } else {
            page
        },
        NavigationEvent::PreviousPage => if page > 0 {
            page - 1
        } else {
            page
        },
        NavigationEvent::Exit => page,
    }
}

/// Navigation bounds: from the first page a backward step is a no-op, and
/// from the last page a forward step is a no-op.
pub proof fn lemma_navigation_bounds(page_count: int)
    requires
        page_count > 0,
    ensures
        spec_navigate(0, page_count, NavigationEvent::PreviousPage) == 0,
        spec_navigate(page_count - 1, page_count, NavigationEvent::NextPage) == page_count - 1,
{
}

/// Apply one navigation request to the current page index.
pub fn navigate(page: usize, page_count: usize, ev: &NavigationEvent) -> (r: usize)
    requires
        page < page_count,
    ensures
        r == spec_navigate(page as int, page_count as int, *ev),
        r < page_count,
{
    match ev {
        NavigationEvent::NextPage => {
            if page + 1 < page_count {
                page + 1
            } else {
                page
            }
        },
        NavigationEvent::PreviousPage => {
            if page > 0 {
                page - 1
            } else {
                page
            }
        },
        NavigationEvent::Exit => page,
    }
}

/// A session's position: choosing a document, inside one, or over.
pub enum SessionState {
    /// The registered documents are being presented for selection.
    Listing,
    /// Document `doc_index` of the ledger is open at `page`.
    Viewing { doc_index: usize, page: usize },
    /// The session is over.
    Closed,
}

/// What the session reacts to: a line typed at the listing, or a key press
/// while a document is open.
pub enum SessionEvent {
    /// A line of input at the listing.
    Input(String),
    /// A navigation key while viewing.
    Key(NavigationEvent),
}

/// What the caller must do after a step.
pub enum SessionAction {
    /// Nothing; present the current state again.
    Idle,
    /// The selected document was refused: its open count is spent, or it has
    /// no pages to show.
    Refused { doc_index: usize },
    /// Decrypt and display this page.
    ShowPage { doc_index: usize, page: usize },
    /// The viewing of this document ended: record the grant in the ledger
    /// and persist it.
    CommitOpen { doc_index: usize },
}

/// Whether a session state points into the ledger it runs against.
pub open spec fn state_ok(v: crate::ledger::DbView, s: SessionState) -> bool {
    match s {
        SessionState::Viewing { doc_index, page } => doc_index < v.docs.len() && page < v.docs[
            doc_index as int
        ].1.renders_config.len(),
        _ => true,
    }
}

/// One step of the viewing session's state machine. The caller performs the
/// returned action — all I/O — and feeds the next event back in; every
/// decision stands here. Selection, the open-count check, navigation bounds
/// and the commit on leaving a document follow the contracts below.
pub fn session_step(db: &DB, state: &SessionState, event: &SessionEvent) -> (r: (
    SessionState,
    SessionAction,
))
    requires
        crate::ledger::db_wf(db@),
        state_ok(db@, *state),
    ensures
        state_ok(db@, r.0),
        *state is Closed ==> r.0 is Closed && r.1 is Idle,
        *state matches SessionState::Viewing { doc_index, page } ==> (match *event {
            SessionEvent::Key(ev) => (match ev {
                NavigationEvent::Exit => r.0 is Listing && r.1 == (SessionAction::CommitOpen {
                    doc_index,
                }),
                _ => r.0 == (SessionState::Viewing {
                    doc_index,
                    page: spec_navigate(
                        page as int,
                        db@.docs[doc_index as int].1.renders_config.len() as int,
                        ev,
                    ) as usize,
                }) && r.1 == (SessionAction::ShowPage {
                    doc_index,
                    page: spec_navigate(
                        page as int,
                        db@.docs[doc_index as int].1.renders_config.len() as int,
                        ev,
                    ) as usize,
                }),
            }),
            SessionEvent::Input(_) => r.0 == *state && r.1 is Idle,
        }),
        *state is Listing ==> (match *event {
            SessionEvent::Key(_) => r.0 is Listing && r.1 is Idle,
            SessionEvent::Input(s) => {
                if s@ == "q"@ {
                    r.0 is Closed && r.1 is Idle
                } else {
                    &&& (r.0 matches SessionState::Viewing { doc_index, page } ==> page == 0
                        && doc_index < db@.docs.len() && s@ == spec_decimal((doc_index + 1) as nat)
                        && spec_can_open(db@.docs[doc_index as int].1) && db@.docs[
                        doc_index as int
                    ].1.renders_config.len() > 0 && r.1 == (SessionAction::ShowPage {
                        doc_index,
                        page: 0,
                    }))
                    &&& (r.1 matches SessionAction::Refused { doc_index } ==> r.0 is Listing
                        && doc_index < db@.docs.len() && s@ == spec_decimal((doc_index + 1) as nat)
                        && !(spec_can_open(db@.docs[doc_index as int].1) && db@.docs[
                        doc_index as int
                    ].1.renders_config.len() > 0))
                    &&& ((forall|i: int|
                        0 <= i < db@.docs.len() ==> s@ != #[trigger] spec_decimal(
                            (i + 1) as nat,
                        )) ==> r.0 is Listing && r.1 is Idle)
                    &&& (r.0 is Viewing || r.1 is Refused || r.1 is Idle)
                    &&& ((exists|i: int|
                        0 <= i < db@.docs.len() && s@ == #[trigger] spec_decimal((i + 1) as nat))
                        ==> !(r.1 is Idle))
                }
            },
        }),
{
    match state {
        SessionState::Closed => (SessionState::Closed, SessionAction::Idle),
        SessionState::Viewing { doc_index, page } => {
            match event {
                SessionEvent::Input(_) => (
                    SessionState::Viewing { doc_index: *doc_index, page: *page },
                    SessionAction::Idle,
                ),
                SessionEvent::Key(ev) => {
                    match ev {
                        NavigationEvent::Exit => (
                            SessionState::Listing,
                            SessionAction::CommitOpen { doc_index: *doc_index },
                        ),
                        _ => {
                            proof {
                                assert(db@.docs[*doc_index as int]
                                    == (db.data@[*doc_index as int].0@, db.data@[*doc_index as int].1@));
                            }
                            let count = db.data[*doc_index].1.renders_config.len();
                            let next = navigate(*page, count, ev);
                            (
                                SessionState::Viewing { doc_index: *doc_index, page: next },
                                SessionAction::ShowPage { doc_index: *doc_index, page: next },
                            )
                        },
                    }
                },
            }
        },
        SessionState::Listing => {
            match event {
                SessionEvent::Key(_) => (SessionState::Listing, SessionAction::Idle),
                SessionEvent::Input(s) => {
                    proof {
                        reveal_strlit("q");
                    }
                    if str_eq(s.as_str(), "q") {
                        return (SessionState::Closed, SessionAction::Idle);
                    }
                    match resolve_selection(db, s.as_str()) {
                        None => (SessionState::Listing, SessionAction::Idle),
                        Some(doc_index) => {
                            proof {
                                assert(db@.docs[doc_index as int]
                                    == (db.data@[doc_index as int].0@, db.data@[doc_index as int].1@));
                            }
                            let meta = &db.data[doc_index].1;
                            if meta.can_open() && meta.renders_config.len() > 0 {
                                (
                                    SessionState::Viewing { doc_index, page: 0 },
                                    SessionAction::ShowPage { doc_index, page: 0 },
                                )
                            } else {
                                (SessionState::Listing, SessionAction::Refused { doc_index })
                            }
                        },
                    }
                },
            }
        },
    }
}

/// Whether the open-count policy admits a viewing of `key` now. Mirrors the
/// session's check before a document is shown: a missing key is refused.
pub fn may_view(db: &DB, key: &str) -> (r: bool)
    requires
        crate::ledger::db_wf(db@),
    ensures
        r == (contains_key(db@.docs, key@) && spec_can_open(doc_of(db@.docs, key@))),
{
    match db.get(key) {
        Some(m) => m.can_open(),
        None => false,
    }
}

} // verus!
