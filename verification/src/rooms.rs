//! The room registry: every room ever created, with its display name,
//! creator, declared participant roster and append-only message history.

use vstd::prelude::*;
use vstd::pervasive::VecAdditionalExecFns;

verus! {

/// One chat message: the room it was sent to, the sender's username and
/// the text itself.  A message is never mutated once built.
pub struct Message {
    pub room_id: u128,
    pub sender: String,
    pub content: String,
}

/// Mathematical image of a [`Message`].
#[verifier::ext_equal]
pub struct MessageView {
    pub room_id: u128,
    pub sender: Seq<char>,
    pub content: Seq<char>,
}

impl View for Message {
    type V = MessageView;

    open spec fn view(&self) -> MessageView {
        MessageView { room_id: self.room_id, sender: self.sender@, content: self.content@ }
    }
}

impl Clone for Message {
    fn clone(&self) -> (res: Self)
        ensures
            res@ == self@,
    {
        Message {
            room_id: self.room_id,
            sender: self.sender.clone(),
            content: self.content.clone(),
        }
    }
}

/// One chat room: an id that never changes once the room is created, a
/// display name, the creator's name, the roster of declared participants
/// (who may well be offline) and the room's history in send order.
pub struct Room {
    pub id: u128,
    pub name: String,
    pub created_by: String,
    pub participants: Vec<String>,
    pub message_log: Vec<Message>,
}

/// Mathematical image of a [`Room`].
#[verifier::ext_equal]
pub struct RoomView {
    pub id: u128,
    pub name: Seq<char>,
    pub created_by: Seq<char>,
    pub participants: Seq<Seq<char>>,
    pub log: Seq<MessageView>,
}

impl View for Room {
    type V = RoomView;

    open spec fn view(&self) -> RoomView {
        RoomView {
            id: self.id,
            name: self.name@,
            created_by: self.created_by@,
            participants: self.participants.deep_view(),
            log: self.message_log@.map_values(|m: Message| m@),
        }
    }
}

impl Clone for Room {
    fn clone(&self) -> (res: Self)
        ensures
            res@ == self@,
    {
        let res = Room {
            id: self.id,
            name: self.name.clone(),
            created_by: self.created_by.clone(),
            participants: self.participants.clone(),
            message_log: self.message_log.clone(),
        };
        proof {
            assert(res.participants.deep_view() =~= self.participants.deep_view());
            assert(res.message_log@.map_values(|m: Message| m@)
                =~= self.message_log@.map_values(|m: Message| m@));
            assert(res@ =~= self@);
        }
        res
    }
}

/// Why a registry request can fail: the room id names no room.
#[derive(PartialEq, Eq, Structural, Debug)]
pub enum RegistryError {
    NotFound,
}

/// Whether some room in `rooms` carries the id `id`.
pub open spec fn has_room(rooms: Seq<RoomView>, id: u128) -> bool {
    exists|i: int| 0 <= i < rooms.len() && rooms[i].id == id
}

/// The index of the room with id `id`; meaningful only under
/// [`has_room`] and, when ids are distinct, unique.
pub open spec fn room_at(rooms: Seq<RoomView>, id: u128) -> int {
    choose|i: int| 0 <= i < rooms.len() && rooms[i].id == id
}

/// `room` with `user` added to its roster; a no-op when `user` is
/// already declared, which makes joining idempotent.
pub open spec fn join_room(room: RoomView, user: Seq<char>) -> RoomView {
    if room.participants.contains(user) {
        room
    } else {
        RoomView { participants: room.participants.push(user), ..room }
    }
}

/// `rooms` after `user` joined the room with id `id`; unchanged when no
/// room carries that id.
pub open spec fn join_rooms(rooms: Seq<RoomView>, id: u128, user: Seq<char>) -> Seq<RoomView> {
    if has_room(rooms, id) {
        rooms.update(room_at(rooms, id), join_room(rooms[room_at(rooms, id)], user))
    } else {
        rooms
    }
}

/// `room` with `m` appended to its history.
pub open spec fn room_with_message(room: RoomView, m: MessageView) -> RoomView {
    RoomView { log: room.log.push(m), ..room }
}

/// `rooms` after `m` was appended to the history of the room with id
/// `id`; unchanged when no room carries that id.
pub open spec fn record_rooms(rooms: Seq<RoomView>, id: u128, m: MessageView) -> Seq<RoomView> {
    if has_room(rooms, id) {
        rooms.update(room_at(rooms, id), room_with_message(rooms[room_at(rooms, id)], m))
    } else {
        rooms
    }
}

/// `rooms` with `room` stored under its id: appended when the id is new,
/// replacing the previous holder of the id otherwise.
pub open spec fn upsert_room(rooms: Seq<RoomView>, room: RoomView) -> Seq<RoomView> {
    if has_room(rooms, room.id) {
        rooms.update(room_at(rooms, room.id), room)
    } else {
        rooms.push(room)
    }
}

/// The registry of all rooms.  Room ids are distinct, so a room id
/// determines its room; rosters never list a name twice.
pub struct RoomRegistry {
    pub rooms: Vec<Room>,
}

impl View for RoomRegistry {
    type V = Seq<RoomView>;

    open spec fn view(&self) -> Seq<RoomView> {
        self.rooms@.map_values(|r: Room| r@)
    }
}

impl RoomRegistry {
    /// Internal invariant: ids are pairwise distinct and each roster is
    /// duplicate-free.
    pub open spec fn wf(self) -> bool {
        &&& forall|i: int, j: int|
            0 <= i < j < self@.len() ==> #[trigger] self@[i].id != #[trigger] self@[j].id
        &&& forall|i: int|
            0 <= i < self@.len() ==> roster_distinct(#[trigger] self@[i].participants)
    }

    /// An empty registry: no rooms at all.
    pub fn new() -> (r: RoomRegistry)
        ensures
            r.wf(),
            r@ =~= Seq::<RoomView>::empty(),
    {
        RoomRegistry { rooms: Vec::new() }
    }

    /// The index of the room with id `id`, if any.
    fn find_room(&self, id: u128) -> (r: Option<usize>)
        ensures
            match r {
                Some(i) => i < self@.len() && self@[i as int].id == id,
                None => !has_room(self@, id),
            },
    {
        let n = self.rooms.len();
        let mut i: usize = 0;
        while i < n
            invariant
                i <= n,
                n == self@.len(),
                forall|k: int| 0 <= k < i ==> #[trigger] self@[k].id != id,
            decreases n - i,
        {
            if self.rooms[i].id == id {
                return Some(i);
            }
            i += 1;
        }
        None
    }
}

impl RoomRegistry {
    /// Creates a room under a freshly drawn id, with an empty roster and
    /// an empty history, stores it and returns a copy.  This never
    /// fails.  The drawn id is random; should it ever collide with an
    /// existing id, the new room takes that id's slot, exactly as a map
    /// insert would.
    pub fn create_room(&mut self, name: &String, creator: &String) -> (r: Room)
        requires
            old(self).wf(),
        ensures
            final(self).wf(),
            r@.name == name@,
            r@.created_by == creator@,
            r@.participants == Seq::<Seq<char>>::empty(),
            r@.log == Seq::<MessageView>::empty(),
            final(self)@ == upsert_room(old(self)@, r@),
            !has_room(old(self)@, r@.id) ==> final(self)@ == old(self)@.push(r@),
    {
        let id = fresh_room_id();
        let room = Room {
            id,
            name: name.clone(),
            created_by: creator.clone(),
            participants: Vec::new(),
            message_log: Vec::new(),
        };
        let copy = room.clone();
        proof {
            assert(room@.participants =~= Seq::<Seq<char>>::empty());
            assert(room@.log =~= Seq::<MessageView>::empty());
        }
        match self.find_room(id) {
            Some(i) => {
                proof {
                    lemma_room_at_is(self@, id, i as int);
                }
                self.rooms.set(i, room);
                proof {
                    assert(self@ =~= upsert_room(old(self)@, copy@));
                }
            },
            None => {
                self.rooms.push(room);
                proof {
                    assert(self@ =~= old(self)@.push(copy@));
                }
            },
        }
        copy
    }

    /// Declares `username` a participant of the room with id `room_id`
    /// and returns a snapshot of the updated room.  Declaring the same
    /// name again is a no-op; an unknown id leaves the registry exactly
    /// as it was and reports [`RegistryError::NotFound`].
    pub fn add_participant(&mut self, room_id: u128, username: &String) -> (r: Result<
        Room,
        RegistryError,
    >)
        requires
            old(self).wf(),
        ensures
            final(self).wf(),
            final(self)@ == join_rooms(old(self)@, room_id, username@),
            r is Ok <==> has_room(old(self)@, room_id),
            r is Ok ==> r->Ok_0@ == join_room(
                old(self)@[room_at(old(self)@, room_id)],
                username@,
            ),
            r is Err ==> r->Err_0 == RegistryError::NotFound && final(self)@ == old(self)@,
    {
        match self.find_room(room_id) {
            Some(i) => {
                proof {
                    lemma_room_at_is(self@, room_id, i as int);
                }
                let mut room = self.rooms[i].clone();
                let ghost before = room@;
                let present = contains_name(&room.participants, username);
                if !present {
                    room.participants.push(username.clone());
                    proof {
                        assert(room@.participants =~= before.participants.push(username@));
                    }
                }
                proof {
                    assert(room@ =~= join_room(old(self)@[i as int], username@));
                }
                let snapshot = room.clone();
                self.rooms.set(i, room);
                proof {
                    assert(self@ =~= join_rooms(old(self)@, room_id, username@));
                }
                Ok(snapshot)
            },
            None => Err(RegistryError::NotFound),
        }
    }

    /// A snapshot of every room, in the registry's storage order.
    pub fn list_rooms(&self) -> (r: Vec<Room>)
        ensures
            r@.map_values(|room: Room| room@) == self@,
    {
        let n = self.rooms.len();
        let mut out: Vec<Room> = Vec::new();
        let mut i: usize = 0;
        while i < n
            invariant
                i <= n,
                n == self@.len(),
                n == self.rooms@.len(),
                out@.len() == i,
                out@.map_values(|room: Room| room@) =~= self@.take(i as int),
            decreases n - i,
        {
            let copied = self.rooms[i].clone();
            out.push(copied);
            proof {
                assert(out@[i as int]@ == self@[i as int]);
                assert(out@.map_values(|room: Room| room@) =~= self@.take(i as int + 1));
            }
            i += 1;
        }
        proof {
            assert(self@.take(n as int) =~= self@);
        }
        out
    }

    /// Appends `message` to the history of the room with id `room_id`;
    /// a message for an id that names no room is silently dropped.
    pub fn append_message(&mut self, room_id: u128, message: Message)
        requires
            old(self).wf(),
        ensures
            final(self).wf(),
            final(self)@ == record_rooms(old(self)@, room_id, message@),
    {
        match self.find_room(room_id) {
            Some(i) => {
                proof {
                    lemma_room_at_is(self@, room_id, i as int);
                }
                let mut room = self.rooms[i].clone();
                let ghost before = room@;
                room.message_log.push(message);
                proof {
                    assert(room@.log =~= before.log.push(message@));
                    assert(room@ =~= room_with_message(old(self)@[i as int], message@));
                }
                self.rooms.set(i, room);
                proof {
                    assert(self@ =~= record_rooms(old(self)@, room_id, message@));
                }
            },
            None => {
            },
        }
    }
}

/// Whether `roster` holds `name`.
fn contains_name(roster: &Vec<String>, name: &String) -> (r: bool)
    ensures
        r == roster.deep_view().contains(name@),
{
    let n = roster.len();
    let mut i: usize = 0;
    while i < n
        invariant
            i <= n,
            n == roster@.len(),
            forall|k: int| 0 <= k < i ==> #[trigger] roster@[k]@ != name@,
        decreases n - i,
    {
        if roster[i].eq(name) {
            proof {
                assert(roster.deep_view()[i as int] == name@);
                assert(roster.deep_view().contains(name@));
            }
            return true;
        }
        i += 1;
    }
    proof {
        assert forall|k: int| 0 <= k < roster.deep_view().len() implies roster.deep_view()[k]
            != name@ by {
            assert(roster.deep_view()[k] == roster@[k]@);
        }
        assert(!roster.deep_view().contains(name@));
    }
    false
}

/// Relies on `uuid::Uuid::new_v4` and `Uuid::as_u128`: draws a random
/// version-4 UUID and hands back its 128-bit value.  The value is
/// random, so nothing is promised of it.
#[verifier::external_body]
fn fresh_room_id() -> u128 {
    uuid::Uuid::new_v4().as_u128()
}

/// No name appears twice in `roster`.
pub open spec fn roster_distinct(roster: Seq<Seq<char>>) -> bool {
    forall|i: int, j: int| 0 <= i < j < roster.len() ==> roster[i] != roster[j]
}

/// Law: a room just created is among the rooms a later listing shows.
/// [`RoomRegistry::create_room`] ensures the stored view is
/// [`upsert_room`] of the returned room, whose name, creator, empty
/// roster and empty history its own contract fixes, and
/// [`RoomRegistry::list_rooms`] returns that view unchanged.
pub proof fn lemma_create_room_listed(rooms: Seq<RoomView>, room: RoomView)
    ensures
        upsert_room(rooms, room).contains(room),
{
    if has_room(rooms, room.id) {
        let i = room_at(rooms, room.id);
        assert(upsert_room(rooms, room)[i] == room);
    } else {
        assert(upsert_room(rooms, room)[rooms.len() as int] == room);
    }
}

/// Law: declaring the same participant a second time changes nothing,
/// so in particular the roster keeps the size one declaration gave it.
pub proof fn lemma_add_participant_idempotent(rooms: Seq<RoomView>, id: u128, user: Seq<char>)
    requires
        forall|p: int, q: int|
            0 <= p < q < rooms.len() ==> #[trigger] rooms[p].id != #[trigger] rooms[q].id,
    ensures
        join_rooms(join_rooms(rooms, id, user), id, user) == join_rooms(rooms, id, user),
{
    if has_room(rooms, id) {
        let i = room_at(rooms, id);
        assert(0 <= i < rooms.len() && rooms[i].id == id);
        let once = join_rooms(rooms, id, user);
        assert(once == rooms.update(i, join_room(rooms[i], user)));
        assert(forall|p: int, q: int|
            0 <= p < q < once.len() ==> #[trigger] once[p].id != #[trigger] once[q].id);
        lemma_room_at_is(once, id, i);
        assert(once[i].participants.contains(user)) by {
            if !rooms[i].participants.contains(user) {
                assert(rooms[i].participants.push(user)[rooms[i].participants.len() as int]
                    == user);
            }
        }
        assert(join_room(once[i], user) == once[i]);
        assert(join_rooms(once, id, user) =~= once);
    }
}

/// With distinct ids, [`room_at`] is exactly the index a linear scan
/// finds: there is only one candidate.
pub proof fn lemma_room_at_is(rooms: Seq<RoomView>, id: u128, i: int)
    requires
        forall|p: int, q: int|
            0 <= p < q < rooms.len() ==> #[trigger] rooms[p].id != #[trigger] rooms[q].id,
        0 <= i < rooms.len(),
        rooms[i].id == id,
    ensures
        has_room(rooms, id),
        room_at(rooms, id) == i,
{
    assert(has_room(rooms, id));
    let j = room_at(rooms, id);
    if i < j {
        assert(rooms[i].id != rooms[j].id);
    } else if j < i {
        assert(rooms[j].id != rooms[i].id);
    }
}

} // verus!
