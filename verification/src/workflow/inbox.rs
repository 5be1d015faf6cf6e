//! Signals that have arrived and have not been received yet.
use std::collections::VecDeque;
use vstd::prelude::*;

verus! {

/// The payloads that arrived under one name, oldest first.
struct Buffer {
    name: String,
    payloads: VecDeque<Vec<u8>>,
}

/// One first-in first-out buffer of payloads per signal name.
pub struct Inbox {
    buffers: Vec<Buffer>,
}

/// The payloads held for `name`: none if the name is not in the map.
pub open spec fn buffered(inbox: Map<Seq<char>, Seq<Seq<u8>>>, name: Seq<char>) -> Seq<Seq<u8>> {
    if inbox.contains_key(name) {
        inbox[name]
    } else {
        Seq::empty()
    }
}

/// The inbox after `payload` has arrived under `name`.
pub open spec fn arrived(
    inbox: Map<Seq<char>, Seq<Seq<u8>>>,
    name: Seq<char>,
    payload: Seq<u8>,
) -> Map<Seq<char>, Seq<Seq<u8>>> {
    inbox.insert(name, buffered(inbox, name).push(payload))
}

/// The inbox after the oldest payload under `name` has been received.
pub open spec fn received(inbox: Map<Seq<char>, Seq<Seq<u8>>>, name: Seq<char>) -> Map<
    Seq<char>,
    Seq<Seq<u8>>,
> {
    if buffered(inbox, name).len() > 0 {
        inbox.insert(name, inbox[name].drop_first())
    } else {
        inbox
    }
}

spec fn payload_views(payloads: Seq<Vec<u8>>) -> Seq<Seq<u8>> {
    payloads.map_values(|p: Vec<u8>| p@)
}

/// `i` is the first buffer under `name`.
spec fn is_first(buffers: Seq<Buffer>, name: Seq<char>, i: int) -> bool {
    &&& 0 <= i < buffers.len()
    &&& buffers[i].name@ == name
    &&& forall|j: int| 0 <= j < i ==> #[trigger] buffers[j].name@ != name
}

/// The place of the first buffer under `name`.
spec fn first_place(buffers: Seq<Buffer>, name: Seq<char>) -> int {
    choose|i: int| #[trigger] is_first(buffers, name, i)
}

proof fn lemma_first_place(buffers: Seq<Buffer>, name: Seq<char>, i: int)
    requires
        is_first(buffers, name, i),
    ensures
        first_place(buffers, name) == i,
{
    let j = first_place(buffers, name);
    assert(is_first(buffers, name, j));
    if j < i {
        assert(buffers[j].name@ != name);
    }
    if i < j {
        assert(buffers[i].name@ != name);
    }
}

impl View for Inbox {
    type V = Map<Seq<char>, Seq<Seq<u8>>>;

    closed spec fn view(&self) -> Map<Seq<char>, Seq<Seq<u8>>> {
        let buffers = self.buffers@;
        Map::new(
            |name: Seq<char>| exists|i: int| #[trigger] is_first(buffers, name, i),
            |name: Seq<char>|
                payload_views(buffers[first_place(buffers, name)].payloads@),
        )
    }
}

impl Inbox {
    /// The empty inbox.
    pub fn new() -> (inbox: Self)
        ensures
            inbox@ == Map::<Seq<char>, Seq<Seq<u8>>>::empty(),
    {
        let inbox = Inbox { buffers: Vec::new() };
        assert(inbox@ =~= Map::<Seq<char>, Seq<Seq<u8>>>::empty());
        inbox
    }

    /// The index of the buffer under `name`, if there is one.
    fn find(&self, name: &String) -> (found: Option<usize>)
        ensures
            match found {
                Some(i) => is_first(self.buffers@, name@, i as int),
                None => forall|j: int|
                    0 <= j < self.buffers@.len() ==> #[trigger] self.buffers@[j].name@ != name@,
            },
    {
        let mut i: usize = 0;
        while i < self.buffers.len()
            invariant
                i <= self.buffers@.len(),
                forall|j: int| 0 <= j < i ==> #[trigger] self.buffers@[j].name@ != name@,
            decreases self.buffers@.len() - i,
        {
            if self.buffers[i].name == *name {
                return Some(i);
            }
            i = i + 1;
        }
        None
    }

    /// Appends `payload` to the buffer under `name`.
    pub fn push(&mut self, name: String, payload: Vec<u8>)
        ensures
            final(self)@ == arrived(old(self)@, name@, payload@),
    {
        let ghost before = *self;
        match self.find(&name) {
            Some(i) => {
                self.buffers[i].payloads.push_back(payload);
                proof {
                    lemma_update(before, *self, i as int);
                    assert(payload_views(self.buffers@[i as int].payloads@) =~= payload_views(
                        before.buffers@[i as int].payloads@,
                    ).push(payload@));
                }
            },
            None => {
                let mut payloads: VecDeque<Vec<u8>> = VecDeque::new();
                payloads.push_back(payload);
                let ghost n = name@;
                self.buffers.push(Buffer { name, payloads });
                proof {
                    assert(self.buffers@.drop_last() =~= before.buffers@);
                    lemma_insert(before, *self, n);
                    assert(payload_views(payloads@) =~= Seq::<Seq<u8>>::empty().push(payload@));
                }
            },
        }
    }

    /// Removes and returns the oldest payload under `name`.
    pub fn pop(&mut self, name: &String) -> (payload: Option<Vec<u8>>)
        ensures
            final(self)@ == received(old(self)@, name@),
            match payload {
                Some(p) => buffered(old(self)@, name@).len() > 0 && p@ == buffered(
                    old(self)@,
                    name@,
                )[0],
                None => buffered(old(self)@, name@).len() == 0,
            },
    {
        let ghost before = *self;
        match self.find(name) {
            Some(i) => {
                let payload = self.buffers[i].payloads.pop_front();
                proof {
                    lemma_update(before, *self, i as int);
                    let held = payload_views(before.buffers@[i as int].payloads@);
                    if held.len() > 0 {
                        assert(payload_views(self.buffers@[i as int].payloads@)
                            =~= held.drop_first());
                    } else {
                        assert(payload_views(self.buffers@[i as int].payloads@) =~= held);
                        assert(self@ =~= before@);
                    }
                }
                payload
            },
            None => None,
        }
    }
}

/// Changing the first buffer under a name changes that name's entry alone.
proof fn lemma_update(before: Inbox, after: Inbox, i: int)
    requires
        0 <= i < before.buffers@.len(),
        is_first(before.buffers@, before.buffers@[i].name@, i),
        after.buffers@.len() == before.buffers@.len(),
        after.buffers@[i].name@ == before.buffers@[i].name@,
        forall|j: int|
            0 <= j < before.buffers@.len() && j != i ==> after.buffers@[j] == before.buffers@[j],
    ensures
        before@.contains_key(before.buffers@[i].name@),
        before@[before.buffers@[i].name@] == payload_views(before.buffers@[i].payloads@),
        after@ == before@.insert(
            before.buffers@[i].name@,
            payload_views(after.buffers@[i].payloads@),
        ),
{
    let name = before.buffers@[i].name@;
    assert forall|n: Seq<char>, j: int|
        is_first(before.buffers@, n, j) == #[trigger] is_first(after.buffers@, n, j) by {}
    assert(is_first(after.buffers@, name, i));
    lemma_first_place(before.buffers@, name, i);
    lemma_first_place(after.buffers@, name, i);
    assert forall|n: Seq<char>| n != name && #[trigger] before@.contains_key(n) implies after@[n]
        == before@[n] by {
        let j = first_place(before.buffers@, n);
        lemma_first_place(after.buffers@, n, j);
    }
    assert forall|n: Seq<char>| #[trigger] after@.contains_key(n) implies before@.contains_key(
        n,
    ) by {
        assert(is_first(before.buffers@, n, first_place(after.buffers@, n)));
    }
    assert forall|n: Seq<char>| #[trigger] before@.contains_key(n) implies after@.contains_key(
        n,
    ) by {
        assert(is_first(after.buffers@, n, first_place(before.buffers@, n)));
    }
    assert(after@ =~= before@.insert(name, payload_views(after.buffers@[i].payloads@)));
}

/// A new buffer under a new name adds that name's entry.
proof fn lemma_insert(before: Inbox, after: Inbox, name: Seq<char>)
    requires
        forall|j: int| 0 <= j < before.buffers@.len() ==> before.buffers@[j].name@ != name,
        after.buffers@.len() == before.buffers@.len() + 1,
        after.buffers@.drop_last() == before.buffers@,
        after.buffers@.last().name@ == name,
    ensures
        !before@.contains_key(name),
        after@ == before@.insert(name, payload_views(after.buffers@.last().payloads@)),
{
    let last = before.buffers@.len() as int;
    assert forall|j: int| 0 <= j < last implies after.buffers@[j] == before.buffers@[j] by {
        assert(after.buffers@.drop_last()[j] == after.buffers@[j]);
    }
    assert forall|n: Seq<char>, j: int| n != name implies is_first(before.buffers@, n, j)
        == #[trigger] is_first(after.buffers@, n, j) by {
        if is_first(before.buffers@, n, j) {
            assert forall|k: int| 0 <= k < j implies #[trigger] after.buffers@[k].name@ != n by {
                assert(before.buffers@[k].name@ != n);
            }
        }
        if is_first(after.buffers@, n, j) {
            assert forall|k: int| 0 <= k < j implies #[trigger] before.buffers@[k].name@ != n by {
                assert(after.buffers@[k].name@ != n);
            }
        }
    }
    assert(is_first(after.buffers@, name, last)) by {
        assert forall|k: int| 0 <= k < last implies #[trigger] after.buffers@[k].name@ != name by {
            assert(before.buffers@[k].name@ != name);
        }
    }
    lemma_first_place(after.buffers@, name, last);
    assert forall|n: Seq<char>| #[trigger] before@.contains_key(n) implies after@.contains_key(n)
        && after@[n] == before@[n] by {
        let j = first_place(before.buffers@, n);
        assert(n != name);
        assert(is_first(after.buffers@, n, j));
        lemma_first_place(after.buffers@, n, j);
    }
    assert forall|n: Seq<char>| n != name && #[trigger] after@.contains_key(n) implies 
        before@.contains_key(n) by {
        assert(is_first(before.buffers@, n, first_place(after.buffers@, n)));
    }
    assert(after@ =~= before@.insert(name, payload_views(after.buffers@.last().payloads@)));
}

} // verus!
