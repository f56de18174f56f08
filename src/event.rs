use std::collections::VecDeque;
use vstd::prelude::*;

use crate::app_event::{ChatEvent, ChatMessage, EventView, MessageView};

verus! {

/// The longest message content, in characters, that a broadcast accepts.
pub const MAX_CONTENT_LEN: usize = 100;

/// The number of characters in a minted message id.
pub const ID_LEN: usize = 21;

/// The registry as a mathematical value: one entry per joined user, in order of
/// joining, each a name and the envelopes waiting in that user's mailbox.
pub type RegistryView = Seq<(Seq<char>, Seq<EventView>)>;

/// A character that a minted id may hold: `A-Z`, `a-z`, `0-9`, `_` and `-`.
pub open spec fn is_id_char(c: char) -> bool {
    ('a' <= c && c <= 'z') || ('A' <= c && c <= 'Z') || ('0' <= c && c <= '9') || c == '_'
        || c == '-'
}

/// The shape of every minted id.
pub open spec fn is_id(s: Seq<char>) -> bool {
    s.len() == ID_LEN && forall|i: int| 0 <= i < s.len() ==> is_id_char(#[trigger] s[i])
}

pub open spec fn has_name(s: RegistryView, n: Seq<char>) -> bool {
    exists|i: int| 0 <= i < s.len() && #[trigger] s[i].0 == n
}

/// No two entries share a name.
pub open spec fn names_unique(s: RegistryView) -> bool {
    forall|i: int, j: int|
        0 <= i < s.len() && 0 <= j < s.len() && i != j ==> #[trigger] s[i].0 != #[trigger] s[j].0
}

/// The position of the entry for `n`, where there is one.
pub open spec fn index_of(s: RegistryView, n: Seq<char>) -> int {
    choose|i: int| 0 <= i < s.len() && #[trigger] s[i].0 == n
}

/// The registry after `Join(n)`: a new entry with an empty mailbox, unless the
/// name is taken, in which case nothing changes.
pub open spec fn joined(s: RegistryView, n: Seq<char>) -> RegistryView {
    if has_name(s, n) {
        s
    } else {
        s.push((n, Seq::empty()))
    }
}

/// The registry after `Leave(n)`: the entry for `n` and its mailbox are gone.
pub open spec fn left(s: RegistryView, n: Seq<char>) -> RegistryView {
    if has_name(s, n) {
        s.remove(index_of(s, n))
    } else {
        s
    }
}

/// The registry after an accepted broadcast of `m`: every mailbox holds one
/// more envelope, the message, at its end.
pub open spec fn broadcasted(s: RegistryView, m: MessageView) -> RegistryView {
    Seq::new(s.len(), |i: int| (s[i].0, s[i].1.push(EventView::Message(m))))
}

/// The envelope that one poll of `n`'s mailbox hands out: nothing once `n`
/// is no member, a heartbeat when the mailbox is empty, else its oldest
/// envelope.
pub open spec fn polled_event(s: RegistryView, n: Seq<char>) -> Option<EventView> {
    if !has_name(s, n) {
        None
    } else if s[index_of(s, n)].1.len() == 0 {
        Some(EventView::Heartbeat)
    } else {
        Some(s[index_of(s, n)].1[0])
    }
}

/// The registry after one poll of `n`'s mailbox: the envelope handed out has
/// left it, and nothing else changed.
pub open spec fn polled(s: RegistryView, n: Seq<char>) -> RegistryView {
    if has_name(s, n) && s[index_of(s, n)].1.len() > 0 {
        let i = index_of(s, n);
        s.update(i, (n, s[i].1.drop_first()))
    } else {
        s
    }
}

/// In a registry with unique names, the entry found for `n` is the one at `i`.
pub proof fn lemma_index_of(s: RegistryView, n: Seq<char>, i: int)
    requires
        names_unique(s),
        0 <= i < s.len(),
        s[i].0 == n,
    ensures
        has_name(s, n),
        index_of(s, n) == i,
{
    assert(has_name(s, n));
}

/// Why a join was refused.
#[derive(Clone, Copy, Debug, PartialEq, Eq)]
pub enum JoinError {
    NameTaken,
}

/// Why a broadcast was refused.
#[derive(Clone, Copy, Debug, PartialEq, Eq)]
pub enum BroadcastError {
    ContentTooLong,
}

/// A request to the registry.
pub enum AppEvent {
    Message { user_name: String, message: String },
    UserJoined { user_name: String },
    UserLeft { user_name: String },
}

/// What the registry answers to an `AppEvent`.
#[derive(Debug)]
pub enum AppEventResponse {
    /// The join was accepted; the name is the handle by which the mailbox is polled.
    UserListener(String),
    /// The join was refused: the name is taken.
    Forbidden,
    /// The message was refused: its content is too long.
    TooLong,
    Done,
}

/// One joined user and the mailbox of envelopes waiting for them.
#[derive(Debug)]
pub struct User {
    name: String,
    mailbox: VecDeque<ChatEvent>,
}

/// The membership registry: every joined user, with unique names.
#[derive(Debug)]
pub struct Users {
    users: Vec<User>,
}

impl View for Users {
    type V = RegistryView;

    closed spec fn view(&self) -> RegistryView {
        Seq::new(
            self.users@.len(),
            |i: int|
                (
                    self.users@[i].name@,
                    Seq::new(
                        self.users@[i].mailbox@.len(),
                        |j: int| self.users@[i].mailbox@[j]@,
                    ),
                ),
        )
    }
}

/// Relies on `nanoid::format` with the default random source and the `SAFE`
/// alphabet, as the `nanoid!()` macro calls it: 21 characters, each one of
/// `A-Za-z0-9_-`.
#[verifier::external_body]
fn mint_id() -> (r: String)
    ensures
        is_id(r@),
{
    nanoid::format(nanoid::rngs::default, &nanoid::alphabet::SAFE, 21)
}

impl Users {
    /// The registry's invariant: names are unique.
    pub open spec fn wf(&self) -> bool {
        names_unique(self@)
    }

    /// An empty registry.
    pub fn new() -> (r: Users)
        ensures
            r@ == Seq::<(Seq<char>, Seq<EventView>)>::empty(),
            r.wf(),
    {
        let r = Users { users: Vec::new() };
        assert(r@ =~= Seq::<(Seq<char>, Seq<EventView>)>::empty());
        r
    }

    /// The number of joined users.
    pub fn len(&self) -> (r: usize)
        ensures
            r == self@.len(),
    {
        self.users.len()
    }

    /// The position of `name`'s entry, if `name` is joined.
    fn find(&self, name: &String) -> (r: Option<usize>)
        requires
            self.wf(),
        ensures
            r.is_none() <==> !has_name(self@, name@),
            r matches Some(i) ==> i < self@.len() && index_of(self@, name@) == i
                && self@[i as int].0 == name@,
    {
        let mut i: usize = 0;
        while i < self.users.len()
            invariant
                0 <= i <= self.users@.len(),
                self.users@.len() == self@.len(),
                self.wf(),
                forall|k: int| 0 <= k < i ==> #[trigger] self@[k].0 != name@,
            decreases self.users@.len() - i,
        {
            assert(self@[i as int].0 == self.users@[i as int].name@);
            if self.users[i].name == *name {
                proof {
                    lemma_index_of(self@, name@, i as int);
                }
                return Some(i);
            }
            i = i + 1;
        }
        None
    }

    /// Whether `name` is joined.
    pub fn contains(&self, name: &String) -> (r: bool)
        requires
            self.wf(),
        ensures
            r == has_name(self@, name@),
    {
        self.find(name).is_some()
    }

    /// Joins `name` with an empty mailbox, unless the name is taken.
    pub fn join(&mut self, name: String) -> (r: Result<(), JoinError>)
        requires
            old(self).wf(),
        ensures
            final(self).wf(),
            final(self)@ == joined(old(self)@, name@),
            has_name(final(self)@, name@),
            r is Ok <==> !has_name(old(self)@, name@),
            r is Err ==> r == Err::<(), JoinError>(JoinError::NameTaken),
    {
        if self.contains(&name) {
            return Err(JoinError::NameTaken);
        }
        let ghost pre = self@;
        let ghost n = name@;
        self.users.push(User { name, mailbox: VecDeque::new() });
        assert(self@[pre.len() as int].1 =~= Seq::empty());
        assert(self@ =~= pre.push((n, Seq::empty())));
        assert(self@[pre.len() as int].0 == n);
        Ok(())
    }

    /// Removes `name` and drops its mailbox; does nothing if `name` is not joined.
    pub fn leave(&mut self, name: &String)
        requires
            old(self).wf(),
        ensures
            final(self).wf(),
            final(self)@ == left(old(self)@, name@),
    {
        match self.find(name) {
            None => {},
            Some(i) => {
                let ghost pre = self@;
                self.users.remove(i);
                assert(self@ =~= pre.remove(i as int));
            },
        }
    }

    /// Appends a message with the given id, author and content to every
    /// mailbox.
    pub fn deliver(&mut self, id: &String, author: &String, content: &String)
        requires
            old(self).wf(),
        ensures
            final(self).wf(),
            final(self)@ == broadcasted(
                old(self)@,
                MessageView { id: id@, author: author@, content: content@ },
            ),
    {
        let ghost pre = self@;
        let ghost m = MessageView { id: id@, author: author@, content: content@ };
        let n = self.users.len();
        let mut i: usize = 0;
        while i < n
            invariant
                0 <= i <= n,
                n == pre.len(),
                m == (MessageView { id: id@, author: author@, content: content@ }),
                self@.len() == n,
                forall|k: int| 0 <= k < i ==> #[trigger] self@[k] == broadcasted(pre, m)[k],
                forall|k: int| i <= k < n ==> #[trigger] self@[k] == pre[k],
            decreases n - i,
        {
            let ghost before = self@;
            let ghost before_users = self.users@;
            let msg = ChatMessage::new(id, author, content);
            let ev = ChatEvent::Message(msg);
            assert(ev@ == EventView::Message(m));
            self.users[i].mailbox.push_back(ev);
            proof {
                assert(self.users@[i as int].mailbox@ == before_users[i as int].mailbox@.push(ev));
                assert(self.users@[i as int].name == before_users[i as int].name);
                assert(self@[i as int].1 =~= before[i as int].1.push(EventView::Message(m)));
                assert forall|k: int| 0 <= k < n && k != i implies #[trigger] self@[k] == before[k] by {
                    assert(self@[k].1 =~= before[k].1);
                }
            }
            i = i + 1;
        }
        assert(self@ =~= broadcasted(pre, m));
    }

    /// Sends `content` from `author` to every joined user, the sender
    /// included, under one freshly minted id. Content over the length bound is
    /// refused before anything is minted or changed.
    pub fn broadcast(&mut self, author: &String, content: &String) -> (r: Result<(), BroadcastError>)
        requires
            old(self).wf(),
        ensures
            final(self).wf(),
            r is Err <==> content@.len() > MAX_CONTENT_LEN,
            r is Err ==> r == Err::<(), BroadcastError>(BroadcastError::ContentTooLong)
                && final(self)@ == old(self)@,
            r is Ok ==> exists|id: Seq<char>|
                is_id(id) && final(self)@ == broadcasted(
                    old(self)@,
                    MessageView { id: id, author: author@, content: content@ },
                ),
    {
        if content.as_str().unicode_len() > MAX_CONTENT_LEN {
            return Err(BroadcastError::ContentTooLong);
        }
        let id = mint_id();
        self.deliver(&id, author, content);
        Ok(())
    }

    /// One step of the stream of `name`'s mailbox: `None` once `name` is no
    /// member (the stream ends), a heartbeat when the mailbox is empty, else
    /// its oldest envelope, which leaves the mailbox.
    pub fn poll(&mut self, name: &String) -> (r: Option<ChatEvent>)
        requires
            old(self).wf(),
        ensures
            final(self).wf(),
            final(self)@ == polled(old(self)@, name@),
            r.is_none() == polled_event(old(self)@, name@).is_none(),
            r matches Some(e) ==> polled_event(old(self)@, name@) == Some(e@),
    {
        match self.find(name) {
            None => None,
            Some(i) => {
                let ghost pre = self@;
                let ghost pre_users = self.users@;
                if self.users[i].mailbox.len() == 0 {
                    return Some(ChatEvent::Heartbeat);
                }
                let ev = self.users[i].mailbox.pop_front();
                match ev {
                    None => Some(ChatEvent::Heartbeat),
                    Some(e) => {
                        proof {
                            assert(self.users@[i as int].mailbox@ == pre_users[i as int].mailbox@.drop_first());
                            assert(e == pre_users[i as int].mailbox@[0]);
                            assert(self@[i as int].1 =~= pre[i as int].1.drop_first());
                            assert forall|k: int| 0 <= k < self@.len() && k != i implies
                                #[trigger] self@[k] == pre[k] by {
                                assert(self@[k].1 =~= pre[k].1);
                            }
                            assert(self@ =~= pre.update(i as int, (name@, pre[i as int].1.drop_first())));
                        }
                        Some(e)
                    },
                }
            },
        }
    }

    /// Answers one request: a join, a leave or a message.
    pub fn handle(&mut self, msg: AppEvent) -> (r: AppEventResponse)
        requires
            old(self).wf(),
        ensures
            final(self).wf(),
            match msg {
                AppEvent::UserJoined { user_name } => final(self)@ == joined(old(self)@, user_name@)
                    && (if has_name(old(self)@, user_name@) {
                    r is Forbidden
                } else {
                    r == AppEventResponse::UserListener(user_name)
                }),
                AppEvent::UserLeft { user_name } => final(self)@ == left(old(self)@, user_name@)
                    && r is Done,
                AppEvent::Message { user_name, message } => if message@.len() > MAX_CONTENT_LEN {
                    r is TooLong && final(self)@ == old(self)@
                } else {
                    r is Done && exists|id: Seq<char>|
                        is_id(id) && final(self)@ == broadcasted(
                            old(self)@,
                            MessageView { id: id, author: user_name@, content: message@ },
                        )
                },
            },
    {
        match msg {
            AppEvent::UserJoined { user_name } => {
                let listener = user_name.clone();
                match self.join(user_name) {
                    Ok(()) => AppEventResponse::UserListener(listener),
                    Err(JoinError::NameTaken) => AppEventResponse::Forbidden,
                }
            },
            AppEvent::UserLeft { user_name } => {
                self.leave(&user_name);
                AppEventResponse::Done
            },
            AppEvent::Message { user_name, message } => {
                match self.broadcast(&user_name, &message) {
                    Ok(()) => AppEventResponse::Done,
                    Err(BroadcastError::ContentTooLong) => AppEventResponse::TooLong,
                }
            },
        }
    }
}

} // verus!
