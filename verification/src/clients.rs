//! Those who listen, and what is said to them.

use vstd::prelude::*;

verus! {

/// Those who listen, each with a number of its own and a way to reach it.
pub struct Clients<S> {
    entries: Vec<(usize, S)>,
}

impl<S> View for Clients<S> {
    type V = Seq<(usize, S)>;

    closed spec fn view(&self) -> Seq<(usize, S)> {
        self.entries@
    }
}

/// Whether no number occurs twice.
pub open spec fn numbers_differ<S>(clients: Seq<(usize, S)>) -> bool {
    forall|i: int, j: int|
        0 <= i < j < clients.len() ==> (#[trigger] clients[i]).0 != (#[trigger] clients[j]).0
}

/// Whether one of `clients` has the number `number`.
pub open spec fn has_number<S>(clients: Seq<(usize, S)>, number: usize) -> bool {
    exists|i: int| 0 <= i < clients.len() && (#[trigger] clients[i]).0 == number
}

/// `clients` without those of the number `number`.
pub open spec fn without<S>(clients: Seq<(usize, S)>, number: usize) -> Seq<(usize, S)> {
    clients.filter(|client: (usize, S)| client.0 != number)
}

/// Among the numbers up to the count of clients there is one that none of them has.
proof fn lemma_free_number<S>(clients: Seq<(usize, S)>)
    requires
        clients.len() <= usize::MAX,
    ensures
        exists|n: usize| n <= clients.len() && !#[trigger] has_number(clients, n),
{
    let numbers = clients.map_values(|client: (usize, S)| client.0 as int);
    let upto = vstd::set_lib::set_int_range(0, (clients.len() + 1) as int);
    vstd::set_lib::lemma_int_range(0, (clients.len() + 1) as int);
    numbers.lemma_cardinality_of_set();
    vstd::seq_lib::seq_to_set_is_finite(numbers);
    if forall|n: usize| n <= clients.len() ==> #[trigger] has_number(clients, n) {
        assert forall|n: int| upto.contains(n) implies numbers.to_set().contains(n) by {
            assert(has_number(clients, n as usize));
            let i = choose|i: int|
                0 <= i < clients.len() && (#[trigger] clients[i]).0 == n as usize;
            assert(numbers[i] == n);
        }
        assert(upto.subset_of(numbers.to_set()));
        vstd::set_lib::lemma_len_subset(upto, numbers.to_set());
    }
}

impl<S> Clients<S> {
    /// No two clients have the same number.
    pub open spec fn wf(&self) -> bool {
        numbers_differ(self@)
    }

    /// Nobody.
    pub fn new() -> (r: Clients<S>)
        ensures
            r.wf(),
            r@ == Seq::<(usize, S)>::empty(),
    {
        Clients { entries: Vec::new() }
    }

    fn number_taken(&self, number: usize) -> (r: bool)
        ensures
            r == has_number(self@, number),
    {
        let mut i: usize = 0;
        while i < self.entries.len()
            invariant
                i <= self.entries@.len(),
                forall|j: int| 0 <= j < i ==> (#[trigger] self.entries@[j]).0 != number,
            decreases self.entries@.len() - i,
        {
            if self.entries[i].0 == number {
                return true;
            }
            i = i + 1;
        }
        false
    }

    /// Takes in a client and returns the number that it has from now on.
    pub fn register(&mut self, sender: S) -> (number: usize)
        requires
            old(self).wf(),
        ensures
            final(self).wf(),
            !has_number(old(self)@, number),
            final(self)@ == old(self)@.push((number, sender)),
    {
        let mut number: usize = 0;
        while self.number_taken(number)
            invariant
                number <= self@.len(),
                self.wf(),
                *self == *old(self),
                forall|n: usize| n < number ==> #[trigger] has_number(self@, n),
            decreases self@.len() - number,
        {
            proof {
                assert(self.entries.len() == self@.len());
                lemma_free_number(self@);
            }
            number = number + 1;
        }
        self.entries.push((number, sender));
        number
    }

    /// Lets go of the client of this number.
    pub fn remove(&mut self, number: usize)
        requires
            old(self).wf(),
        ensures
            final(self).wf(),
            final(self)@ == without(old(self)@, number),
    {
        let mut i: usize = 0;
        while i < self.entries.len()
            invariant
                self@ == old(self)@,
                i <= self@.len(),
                old(self).wf(),
                forall|j: int| 0 <= j < i ==> (#[trigger] self@[j]).0 != number,
            decreases self@.len() - i,
        {
            if self.entries[i].0 == number {
                self.entries.remove(i);
                proof {
                    lemma_without_one(old(self)@, i as int);
                }
                return ;
            }
            i = i + 1;
        }
        proof {
            lemma_without_none(self@, number);
        }
    }

    /// The number of clients.
    pub fn len(&self) -> (r: usize)
        ensures
            r == self@.len(),
    {
        self.entries.len()
    }

    /// The way to reach a client, by its place.
    pub fn sender(&self, i: usize) -> (r: &S)
        requires
            i < self@.len(),
        ensures
            *r == self@[i as int].1,
    {
        &self.entries[i].1
    }
}

/// Those without a number that none of them has are all of them.
pub proof fn lemma_without_none<S>(clients: Seq<(usize, S)>, number: usize)
    requires
        !has_number(clients, number),
    ensures
        without(clients, number) == clients,
    decreases clients.len(),
{
    reveal(Seq::filter);
    if clients.len() > 0 {
        let rest = clients.drop_last();
        assert(clients.last() == clients[clients.len() - 1]);
        assert(clients.last().0 != number);
        assert forall|i: int| 0 <= i < rest.len() implies (#[trigger] rest[i]).0 != number by {
            assert(rest[i] == clients[i]);
        }
        lemma_without_none(rest, number);
        assert(clients =~= rest.push(clients.last()));
    } else {
        assert(without(clients, number) =~= clients);
    }
}

proof fn lemma_without_one<S>(clients: Seq<(usize, S)>, i: int)
    requires
        numbers_differ(clients),
        0 <= i < clients.len(),
    ensures
        without(clients, clients[i].0) == clients.remove(i),
        numbers_differ(clients.remove(i)),
    decreases clients.len(),
{
    reveal(Seq::filter);
    let number = clients[i].0;
    let rest = clients.drop_last();
    assert(forall|j: int|
        0 <= j < clients.remove(i).len() ==> (#[trigger] clients.remove(i)[j]) == if j < i {
            clients[j]
        } else {
            clients[j + 1]
        });
    if i == clients.len() - 1 {
        assert(!has_number(rest, number));
        lemma_without_none(rest, number);
        assert(clients.remove(i) =~= rest);
    } else {
        assert forall|a: int, b: int| 0 <= a < b < rest.len() implies (#[trigger] rest[a]).0 != (
        #[trigger] rest[b]).0 by {
            assert(rest[a] == clients[a] && rest[b] == clients[b]);
        }
        lemma_without_one(rest, i);
        assert(clients.last() == clients[clients.len() - 1]);
        assert(clients.remove(i) =~= rest.remove(i).push(clients.last()));
    }
}

/// Of those who listen each goes or stays on its own, by its number, and those who stay keep their
/// order.
pub proof fn each_client_goes_or_stays_on_its_own<S>(
    before: Seq<(usize, S)>,
    client: (usize, S),
    behind: Seq<(usize, S)>,
    number: usize,
)
    ensures
        without(before + seq![client] + behind, number) == without(before, number) + (if client.0
            == number {
            Seq::empty()
        } else {
            seq![client]
        }) + without(behind, number),
        without(Seq::<(usize, S)>::empty(), number) == Seq::<(usize, S)>::empty(),
        has_number(before + seq![client] + behind, client.0),
    decreases behind.len(),
{
    reveal(Seq::filter);
    let all = before + seq![client] + behind;
    assert(all[before.len() as int].0 == client.0);
    assert(without(Seq::<(usize, S)>::empty(), number) =~= Seq::empty());
    let middle = if client.0 == number {
        Seq::empty()
    } else {
        seq![client]
    };
    if behind.len() == 0 {
        assert(all.drop_last() =~= before);
        assert(all.last() == client);
        assert(without(all, number) =~= without(before, number) + middle + without(behind, number));
    } else {
        each_client_goes_or_stays_on_its_own(before, client, behind.drop_last(), number);
        assert(all.drop_last() =~= before + seq![client] + behind.drop_last());
        assert(all.last() == behind.last());
        assert(without(all, number) =~= without(before, number) + middle + without(behind, number));
    }
}

/// Where all numbers differ, a number tells a client apart from all others.
pub proof fn a_number_belongs_to_one_client<S>(clients: Seq<(usize, S)>, i: int, j: int)
    requires
        numbers_differ(clients),
        0 <= i < clients.len(),
        0 <= j < clients.len(),
        clients[i].0 == clients[j].0,
    ensures
        i == j,
{
}

/// What a client may say.
#[derive(Debug)]
pub enum ClientMessage {
    Ping(Vec<u8>),
    Text,
    Binary,
    Close,
    Other,
}

/// What is done about it.
#[derive(Debug)]
pub enum ClientAction {
    /// Say the same bytes back.
    Pong(Vec<u8>),
    /// Nothing.
    Ignore,
    /// Let go of the client, close the connection in the normal way and listen no more.
    Close,
}

/// What is done about what a client says: pings are answered, and at its wish the client is let
/// go of; all else is passed over.
pub fn ws_answer(message: ClientMessage) -> (r: ClientAction)
    ensures
        match message {
            ClientMessage::Ping(bytes) => r == ClientAction::Pong(bytes),
            ClientMessage::Close => r == ClientAction::Close,
            _ => r == ClientAction::Ignore,
        },
{
    match message {
        ClientMessage::Ping(bytes) => ClientAction::Pong(bytes),
        ClientMessage::Text => ClientAction::Ignore,
        ClientMessage::Binary => ClientAction::Ignore,
        ClientMessage::Close => ClientAction::Close,
        ClientMessage::Other => ClientAction::Ignore,
    }
}

} // verus!
