//! The key-value store and the commands that change it.

use vstd::hash_map::StringHashMap;
use vstd::prelude::*;

verus! {

/// A request against the store. `Put` and `Del` change it and are replicated;
/// `Get` is answered where it arrives and changes nothing.
#[derive(Debug, PartialEq, Eq)]
pub enum Command {
    Put(String, String),
    Get(String),
    Del(String),
}

impl Clone for Command {
    fn clone(&self) -> (copy: Self)
        ensures
            copy == *self,
    {
        match self {
            Command::Put(key, value) => Command::Put(key.clone(), value.clone()),
            Command::Get(key) => Command::Get(key.clone()),
            Command::Del(key) => Command::Del(key.clone()),
        }
    }
}

/// What a `Command` stands for: its kind, with the key and value as
/// character sequences.
pub enum CommandView {
    Put(Seq<char>, Seq<char>),
    Get(Seq<char>),
    Del(Seq<char>),
}

impl View for Command {
    type V = CommandView;

    open spec fn view(&self) -> CommandView {
        match self {
            Command::Put(key, value) => CommandView::Put(key@, value@),
            Command::Get(key) => CommandView::Get(key@),
            Command::Del(key) => CommandView::Del(key@),
        }
    }
}

/// The value under `key`, if there is one.
pub open spec fn lookup(store: Map<Seq<char>, Seq<char>>, key: Seq<char>) -> Option<Seq<char>> {
    if store.contains_key(key) {
        Some(store[key])
    } else {
        None
    }
}

/// The store after `command`: a put sets the key's value, whatever it was;
/// a delete removes the key, if it is there; a get changes nothing.
pub open spec fn apply(store: Map<Seq<char>, Seq<char>>, command: CommandView) -> Map<
    Seq<char>,
    Seq<char>,
> {
    match command {
        CommandView::Put(key, value) => store.insert(key, value),
        CommandView::Get(_) => store,
        CommandView::Del(key) => store.remove(key),
    }
}

/// The store after `command` has been applied `times` times in a row.
pub open spec fn apply_repeatedly(
    store: Map<Seq<char>, Seq<char>>,
    command: CommandView,
    times: nat,
) -> Map<Seq<char>, Seq<char>>
    decreases times,
{
    if times == 0 {
        store
    } else {
        apply(apply_repeatedly(store, command, (times - 1) as nat), command)
    }
}

/// A mapping from keys to values, both text.
pub struct Store {
    entries: StringHashMap<String>,
}

impl View for Store {
    type V = Map<Seq<char>, Seq<char>>;

    closed spec fn view(&self) -> Map<Seq<char>, Seq<char>> {
        self.entries@.map_values(|value: String| value@)
    }
}

impl Store {
    /// An empty store.
    pub fn new() -> (store: Self)
        ensures
            store@ == Map::<Seq<char>, Seq<char>>::empty(),
    {
        let store = Store { entries: StringHashMap::new() };
        assert(store@ =~= Map::<Seq<char>, Seq<char>>::empty());
        store
    }

    /// A copy of the value under `key`, or `None` where the key is absent.
    pub fn read(&self, key: &str) -> (value: Option<String>)
        ensures
            match value {
                Some(found) => lookup(self@, key@) == Some(found@),
                None => lookup(self@, key@) is None,
            },
    {
        match self.entries.get(key) {
            Some(found) => Some(found.clone()),
            None => None,
        }
    }

    /// Sets the value under `key`, replacing the one that was there.
    pub fn write(&mut self, key: String, value: String)
        ensures
            final(self)@ == old(self)@.insert(key@, value@),
    {
        self.entries.insert(key, value);
        assert(self@ =~= old(self)@.insert(key@, value@));
    }

    /// Removes `key`; does nothing where it is absent.
    pub fn delete(&mut self, key: &str)
        ensures
            final(self)@ == old(self)@.remove(key@),
    {
        self.entries.remove(key);
        assert(self@ =~= old(self)@.remove(key@));
    }
}

/// Applies a replicated command to the store.
pub fn handle_command(command: Command, store: &mut Store)
    ensures
        final(store)@ == apply(old(store)@, command@),
{
    match command {
        Command::Put(key, value) => {
            store.write(key, value);
        },
        Command::Get(_) => {},
        Command::Del(key) => {
            store.delete(key.as_str());
        },
    }
}

/// Deleting a key again changes nothing: any number of deletes leaves
/// the store as one delete does.
pub proof fn law_delete_idempotent(store: Map<Seq<char>, Seq<char>>, key: Seq<char>, times: nat)
    requires
        times >= 1,
    ensures
        apply_repeatedly(store, CommandView::Del(key), times) == apply(
            store,
            CommandView::Del(key),
        ),
    decreases times,
{
    if times == 1 {
        assert(apply_repeatedly(store, CommandView::Del(key), 0) == store);
    } else {
        law_delete_idempotent(store, key, (times - 1) as nat);
        assert(apply(store, CommandView::Del(key)).remove(key) =~= apply(
            store,
            CommandView::Del(key),
        ));
    }
}

/// Applying one put twice leaves the store as applying it once does.
pub proof fn law_put_idempotent(store: Map<Seq<char>, Seq<char>>, key: Seq<char>, value: Seq<char>)
    ensures
        apply(apply(store, CommandView::Put(key, value)), CommandView::Put(key, value)) == apply(
            store,
            CommandView::Put(key, value),
        ),
{
    assert(store.insert(key, value).insert(key, value) =~= store.insert(key, value));
}

} // verus!
