//! What an open needs to know about the connection that carries it.

use vstd::prelude::*;

use crate::header::Header;
use crate::types::{Command, Dialect, FileId, OplockLevel, TreeId};

verus! {

/// The negotiated dialect, how often the connection has been revived, the oplocks held through it,
/// and how many notifications nobody asked for have arrived.
///
/// A break notification arrives with no usable tree id of its own, so the tree of every oplocked
/// handle is remembered here.
#[derive(Debug)]
pub struct Connection {
    dialect: Option<Dialect>,
    generation: u64,
    oplocks: Vec<(FileId, TreeId)>,
    notifications: u64,
}

/// A connection as contracts see it.
pub struct ConnectionView {
    /// The negotiated dialect, once there is one.
    pub dialect: Option<Dialect>,
    /// How many sessions came before the current one.
    pub generation: u64,
    /// The handles that hold an oplock, each with its tree.
    pub oplocks: Map<FileId, TreeId>,
    /// How many unsolicited notifications have arrived.
    pub notifications: u64,
}

/// The acknowledgment of an oplock break: the header says on which tree.
#[derive(Debug, Clone, Copy, PartialEq, Eq, Structural)]
pub struct BreakAck {
    pub header: Header,
    pub file_id: FileId,
    pub oplock_level: OplockLevel,
}

/// The acknowledgment owed for a break on `file_id`, given the oplocks held: all of the oplock is
/// given up, on the tree the handle belongs to. A handle without an oplock is owed none.
pub open spec fn break_answer(oplocks: Map<FileId, TreeId>, file_id: FileId) -> Option<BreakAck> {
    if oplocks.contains_key(file_id) {
        Some(
            BreakAck {
                header: Header::spec_on_tree(Command::OplockBreak, oplocks[file_id]),
                file_id,
                oplock_level: OplockLevel::NoOplock,
            },
        )
    } else {
        None
    }
}

/// A break on a handle is acknowledged, on its own tree, from the moment its oplock is registered
/// until the handle is closed; what happens to one handle changes nothing for another.
pub proof fn law_breaks_are_answered_while_held(
    oplocks: Map<FileId, TreeId>,
    file_id: FileId,
    tree_id: TreeId,
    other: FileId,
)
    ensures
        break_answer(oplocks.insert(file_id, tree_id), file_id) == Some(
            BreakAck {
                header: Header::spec_on_tree(Command::OplockBreak, tree_id),
                file_id,
                oplock_level: OplockLevel::NoOplock,
            },
        ),
        break_answer(oplocks.remove(file_id), file_id) is None,
        other != file_id ==> break_answer(oplocks.insert(file_id, tree_id), other) == break_answer(
            oplocks,
            other,
        ),
        other != file_id ==> break_answer(oplocks.remove(file_id), other) == break_answer(
            oplocks,
            other,
        ),
{
}

/// The map a list of entries stands for; a later entry wins over an earlier one.
spec fn table(entries: Seq<(FileId, TreeId)>) -> Map<FileId, TreeId>
    decreases entries.len(),
{
    if entries.len() == 0 {
        Map::empty()
    } else {
        table(entries.drop_last()).insert(entries.last().0, entries.last().1)
    }
}

impl View for Connection {
    type V = ConnectionView;

    closed spec fn view(&self) -> ConnectionView {
        ConnectionView {
            dialect: self.dialect,
            generation: self.generation,
            oplocks: table(self.oplocks@),
            notifications: self.notifications,
        }
    }
}

impl Connection {
    /// A connection of this dialect and generation that holds no oplock.
    pub fn new(dialect: Option<Dialect>, generation: u64) -> (conn: Connection)
        ensures
            conn@.dialect == dialect,
            conn@.generation == generation,
            conn@.oplocks == Map::<FileId, TreeId>::empty(),
            conn@.notifications == 0,
    {
        Connection { dialect, generation, oplocks: Vec::new(), notifications: 0 }
    }

    /// The negotiated dialect.
    pub fn dialect(&self) -> (dialect: Option<Dialect>)
        ensures
            dialect == self@.dialect,
    {
        self.dialect
    }

    /// How many sessions came before the current one.
    pub fn generation(&self) -> (generation: u64)
        ensures
            generation == self@.generation,
    {
        self.generation
    }

    /// Forgets whatever oplock `file_id` holds. Closing a handle does this.
    pub fn retire_oplock(&mut self, file_id: FileId)
        ensures
            final(self)@ == (ConnectionView {
                oplocks: old(self)@.oplocks.remove(file_id),
                ..old(self)@
            }),
    {
        let mut kept: Vec<(FileId, TreeId)> = Vec::new();
        let mut i: usize = 0;
        assert(table(kept@) =~= table(self.oplocks@.take(0)).remove(file_id));
        while i < self.oplocks.len()
            invariant
                i <= self.oplocks.len(),
                table(kept@) == table(self.oplocks@.take(i as int)).remove(file_id),
            decreases self.oplocks.len() - i,
        {
            let held = self.oplocks[i];
            let ghost before = kept@;
            let ghost seen = self.oplocks@.take(i + 1);
            assert(seen.drop_last() =~= self.oplocks@.take(i as int));
            if held.0 != file_id {
                kept.push(held);
                assert(kept@.drop_last() =~= before);
            }
            assert(table(kept@) =~= table(seen).remove(file_id));
            i = i + 1;
        }
        assert(self.oplocks@.take(i as int) =~= self.oplocks@);
        self.oplocks = kept;
    }

    /// Remembers that `file_id` holds an oplock on `tree_id`.
    pub fn register_oplock(&mut self, file_id: FileId, tree_id: TreeId)
        ensures
            final(self)@ == (ConnectionView {
                oplocks: old(self)@.oplocks.insert(file_id, tree_id),
                ..old(self)@
            }),
    {
        self.retire_oplock(file_id);
        let ghost before = self.oplocks@;
        self.oplocks.push((file_id, tree_id));
        assert(self.oplocks@.drop_last() =~= before);
        assert(self@.oplocks =~= old(self)@.oplocks.insert(file_id, tree_id));
    }

    /// How many unsolicited notifications have arrived.
    pub fn unsolicited_notifications_received(&self) -> (n: u64)
        ensures
            n == self@.notifications,
    {
        self.notifications
    }

    /// Counts the server's notification that it breaks the oplock on `file_id`, and says what to
    /// answer.
    ///
    /// Whoever tried to open the file waits for this answer. The oplock was only ever taken to
    /// get durability, and durability is gone by the time a break arrives, so all of it is given
    /// up. A break for a handle that holds no oplock is not ours to answer: on a guessed tree the
    /// server would reject the acknowledgment.
    pub fn acknowledge_break(&mut self, file_id: FileId) -> (ack: Option<BreakAck>)
        ensures
            ack == break_answer(old(self)@.oplocks, file_id),
            final(self)@ == (ConnectionView {
                notifications: old(self)@.notifications.wrapping_add(1),
                ..old(self)@
            }),
    {
        self.notifications = self.notifications.wrapping_add(1);
        self.owed_ack(file_id)
    }

    fn owed_ack(&self, file_id: FileId) -> (ack: Option<BreakAck>)
        ensures
            ack == break_answer(self@.oplocks, file_id),
    {
        let mut i: usize = self.oplocks.len();
        assert(self.oplocks@.take(i as int) =~= self.oplocks@);
        while i > 0
            invariant
                i <= self.oplocks.len(),
                self@.oplocks.contains_key(file_id) == table(
                    self.oplocks@.take(i as int),
                ).contains_key(file_id),
                self@.oplocks.contains_key(file_id) ==> self@.oplocks[file_id] == table(
                    self.oplocks@.take(i as int),
                )[file_id],
            decreases i,
        {
            let ghost seen = self.oplocks@.take(i as int);
            assert(seen.drop_last() =~= self.oplocks@.take(i - 1));
            i = i - 1;
            let held = self.oplocks[i];
            if held.0 == file_id {
                return Some(
                    BreakAck {
                        header: Header::on_tree(Command::OplockBreak, held.1),
                        file_id,
                        oplock_level: OplockLevel::NoOplock,
                    },
                );
            }
        }
        None
    }
}

/// A break is answered exactly where an oplock is held: with an OPLOCK_BREAK on the tree of the
/// handle, for that handle, giving up all of the oplock.
pub proof fn law_what_a_break_is_answered(oplocks: Map<FileId, TreeId>, file_id: FileId)
    ensures
        break_answer(oplocks, file_id) is Some <==> oplocks.dom().contains(file_id),
        break_answer(oplocks, file_id) matches Some(ack) ==> {
            &&& ack.header.command is OplockBreak
            &&& ack.header.tree_id == oplocks[file_id]
            &&& ack.file_id == file_id
            &&& ack.oplock_level is NoOplock
        },
{
}

} // verus!
