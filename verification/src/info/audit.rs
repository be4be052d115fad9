//! The audit trail: one row per security-relevant event, appended and never
//! read back.

use vstd::prelude::*;
use crate::info::user::User;

verus! {

/// The kinds of event that are audited.
#[derive(Clone, Copy, PartialEq, Eq, Structural, Debug)]
pub enum Event {
    Auth,
    NewStash,
    DeleteStash,
    List,
    Download,
    Upload,
    DeleteFile,
}

/// The name under which an event is stored.
pub open spec fn event_name(event: Event) -> Seq<char> {
    match event {
        Event::Auth => "AUTH"@,
        Event::NewStash => "NEW_STASH"@,
        Event::DeleteStash => "DELETE_STASH"@,
        Event::List => "LIST"@,
        Event::Download => "DOWNLOAD"@,
        Event::Upload => "UPLOAD"@,
        Event::DeleteFile => "DELETE_FILE"@,
    }
}

impl From<Event> for &'static str {
    fn from(event: Event) -> (name: &'static str)
        ensures
            name@ == event_name(event),
    {
        match event {
            Event::Auth => "AUTH",
            Event::NewStash => "NEW_STASH",
            Event::DeleteStash => "DELETE_STASH",
            Event::List => "LIST",
            Event::Download => "DOWNLOAD",
            Event::Upload => "UPLOAD",
            Event::DeleteFile => "DELETE_FILE",
        }
    }
}

impl vstd::std_specs::convert::FromSpecImpl<Event> for &'static str {
    open spec fn obeys_from_spec() -> bool {
        true
    }

    open spec fn from_spec(event: Event) -> &'static str {
        match event {
            Event::Auth => "AUTH",
            Event::NewStash => "NEW_STASH",
            Event::DeleteStash => "DELETE_STASH",
            Event::List => "LIST",
            Event::Download => "DOWNLOAD",
            Event::Upload => "UPLOAD",
            Event::DeleteFile => "DELETE_FILE",
        }
    }
}

/// An IPv4 address as one number, the first octet in the most significant
/// byte.
pub open spec fn packed(octets: Seq<u8>) -> int
    recommends
        octets.len() == 4,
{
    octets[0] * 0x100_0000 + octets[1] * 0x1_0000 + octets[2] * 0x100 + octets[3]
}

/// Packs the four octets of an IPv4 address.
pub fn pack(octets: [u8; 4]) -> (address: u32)
    ensures
        address == packed(octets@),
{
    let a: u32 = octets[0] as u32;
    let b: u32 = octets[1] as u32;
    let c: u32 = octets[2] as u32;
    let d: u32 = octets[3] as u32;
    a * 0x100_0000 + b * 0x1_0000 + c * 0x100 + d
}

/// One row of the audit table.
#[derive(Debug, PartialEq, Eq)]
pub struct Row {
    pub user: Option<u64>,
    pub address: u32,
    pub event: Event,
    pub success: bool,
    pub info: Option<String>,
}

/// A row as mathematical values.
pub struct RowView {
    pub user: Option<u64>,
    pub address: int,
    pub event: Event,
    pub success: bool,
    pub info: Option<Seq<char>>,
}

impl View for Row {
    type V = RowView;

    open spec fn view(&self) -> RowView {
        RowView {
            user: self.user,
            address: self.address as int,
            event: self.event,
            success: self.success,
            info: match self.info {
                Some(text) => Some(text@),
                None => None,
            },
        }
    }
}

impl Row {
    /// The mark stored in the `success` column: `Y` or `N`.
    pub fn mark(&self) -> (mark: char)
        ensures
            mark == if self.success {
                'Y'
            } else {
                'N'
            },
    {
        if self.success {
            'Y'
        } else {
            'N'
        }
    }
}

/// The row that records an event.
pub open spec fn row_of(
    user: Option<User>,
    octets: Seq<u8>,
    event: Event,
    success: bool,
    info: Option<Seq<char>>,
) -> RowView {
    RowView {
        user: match user {
            Some(u) => Some(u.spec_id()),
            None => None,
        },
        address: packed(octets),
        event,
        success,
        info,
    }
}

/// The rows that wait to be written to the audit table, oldest first.
pub struct Audit {
    pending: Vec<Row>,
}

impl Audit {
    /// The waiting rows, oldest first.
    pub closed spec fn rows(&self) -> Seq<RowView> {
        self.pending@.map_values(|r: Row| r@)
    }

    /// An audit trail with nothing waiting.
    pub fn new() -> (audit: Audit)
        ensures
            audit.rows() == Seq::<RowView>::empty(),
    {
        Audit { pending: Vec::new() }
    }

    /// Appends the row of one event.
    pub fn log(
        &mut self,
        user: Option<&User>,
        addr: [u8; 4],
        event: Event,
        success: bool,
        info: Option<&str>,
    )
        ensures
            final(self).rows() == old(self).rows().push(
                row_of(
                    match user {
                        Some(u) => Some(*u),
                        None => None,
                    },
                    addr@,
                    event,
                    success,
                    match info {
                        Some(text) => Some(text@),
                        None => None,
                    },
                ),
            ),
    {
        let row = Row {
            user: match user {
                Some(u) => Some(u.id()),
                None => None,
            },
            address: pack(addr),
            event,
            success,
            info: match info {
                Some(text) => Some(String::from_str(text)),
                None => None,
            },
        };
        let ghost before = self.pending@;
        self.pending.push(row);
        assert(self.pending@.map_values(|r: Row| r@) == before.map_values(|r: Row| r@).push(row@));
    }

    /// Hands over the waiting rows, oldest first, and leaves none.
    pub fn take(&mut self) -> (rows: Vec<Row>)
        ensures
            rows@.map_values(|r: Row| r@) == old(self).rows(),
            final(self).rows() == Seq::<RowView>::empty(),
    {
        let mut rows: Vec<Row> = Vec::new();
        std::mem::swap(&mut self.pending, &mut rows);
        rows
    }
}

} // verus!
