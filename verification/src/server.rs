//! The relay rules of the server: it remembers every address that has sent
//! it a datagram and passes each audio datagram on to all the others.
use crate::messages::{message_from_bytes, Message, MessageType, MessageView};
use vstd::prelude::*;

verus! {

/// The addresses of a list of clients, as character sequences.
pub open spec fn addresses(clients: Seq<String>) -> Seq<Seq<char>> {
    clients.map_values(|c: String| c@)
}

/// The registry after a datagram from `sender`: `sender` is added at the
/// end unless it is there already.
pub open spec fn registered(clients: Seq<Seq<char>>, sender: Seq<char>) -> Seq<Seq<char>> {
    if clients.contains(sender) {
        clients
    } else {
        clients.push(sender)
    }
}

/// Whether a client is not `sender`.
pub open spec fn is_other(sender: Seq<char>) -> spec_fn(Seq<char>) -> bool {
    |c: Seq<char>| c != sender
}

/// Where a datagram carrying `message` from `sender` is passed on, given the
/// registry `before` it arrived: nowhere for a `Connect` or while nobody
/// else was known, else to every registered client but the sender, in the
/// order in which they first sent.
pub open spec fn relay_targets(
    before: Seq<Seq<char>>,
    sender: Seq<char>,
    message: MessageView,
) -> Seq<Seq<char>> {
    if message.message_type == MessageType::Connect || before.len() == 0 {
        Seq::empty()
    } else {
        registered(before, sender).filter(is_other(sender))
    }
}

/// The registry after datagrams from `senders`, in that order, starting empty.
pub open spec fn registered_all(senders: Seq<Seq<char>>) -> Seq<Seq<char>>
    decreases senders.len(),
{
    if senders.len() == 0 {
        Seq::empty()
    } else {
        registered(registered_all(senders.drop_last()), senders.last())
    }
}

/// The relay state of a server: the addresses of the clients it knows.
pub struct Server {
    clients: Vec<String>,
}

impl View for Server {
    type V = Seq<Seq<char>>;

    closed spec fn view(&self) -> Seq<Seq<char>> {
        addresses(self.clients@)
    }
}

impl Server {
    /// No address is registered twice.
    #[verifier::type_invariant]
    spec fn registry_distinct(self) -> bool {
        addresses(self.clients@).no_duplicates()
    }

    /// A server that knows no client yet.
    pub fn new() -> (server: Server)
        ensures
            server@ == Seq::<Seq<char>>::empty(),
    {
        let server = Server { clients: Vec::new() };
        assert(server@ =~= Seq::<Seq<char>>::empty());
        server
    }

    /// The number of clients the server knows.
    pub fn connected_clients(&self) -> (n: usize)
        ensures
            n == self@.len(),
    {
        self.clients.len()
    }

    /// Takes in a datagram from `sender`: registers `sender`, and tells where
    /// to pass the datagram on.  `None` where the datagram holds no message;
    /// its sender is registered all the same.
    pub fn handle_datagram(&mut self, sender: String, datagram: &[u8]) -> (targets: Option<
        Vec<String>,
    >)
        ensures
            final(self)@ == registered(old(self)@, sender@),
            targets is None <==> message_from_bytes(datagram@) is None,
            targets matches Some(t) ==> addresses(t@) == relay_targets(
                old(self)@,
                sender@,
                message_from_bytes(datagram@).unwrap(),
            ),
            targets matches Some(t) ==> (message_from_bytes(datagram@).unwrap().message_type
                == MessageType::Connect ==> t@.len() == 0),
            targets matches Some(t) ==> (old(self)@.len() == 0 ==> t@.len() == 0),
            targets matches Some(t) ==> forall|j: int|
                0 <= j < t@.len() ==> #[trigger] t@[j]@ != sender@ && final(self)@.contains(
                    t@[j]@,
                ),
    {
        proof {
            use_type_invariant(&*self);
        }
        let ghost before = self@;
        let client_len = self.clients.len();
        let mut exists = false;
        let mut i: usize = 0;
        while i < self.clients.len()
            invariant
                i <= self.clients.len(),
                self@ == before,
                exists <==> exists|j: int| 0 <= j < i && self.clients@[j]@ == sender@,
            decreases self.clients.len() - i,
        {
            if self.clients[i] == sender {
                exists = true;
            }
            i = i + 1;
        }
        proof {
            if exists {
                let j = choose|j: int| 0 <= j < i && self.clients@[j]@ == sender@;
                assert(before[j] == sender@);
            } else {
                assert forall|j: int| 0 <= j < before.len() implies before[j] != sender@ by {
                    assert(self.clients@[j]@ == before[j]);
                }
            }
        }
        if !exists {
            let mut clients = Vec::new();
            std::mem::swap(&mut clients, &mut self.clients);
            clients.push(sender.clone());
            assert(addresses(clients@) =~= before.push(sender@));
            self.clients = clients;
        }
        assert(self@ =~= registered(before, sender@));
        let message = match Message::try_decoded(datagram) {
            Some(m) => m,
            None => return None,
        };
        let mut targets: Vec<String> = Vec::new();
        if message.message_type == MessageType::Connect {
            return Some(targets);
        }
        if client_len < 1 {
            return Some(targets);
        }
        let ghost after = self@;
        let mut k: usize = 0;
        while k < self.clients.len()
            invariant
                k <= self.clients.len(),
                self@ == after,
                addresses(targets@) == addresses(self.clients@.take(k as int)).filter(
                    is_other(sender@),
                ),
            decreases self.clients.len() - k,
        {
            proof {
                broadcast use Seq::lemma_filter_push;

                assert(addresses(self.clients@.take(k + 1)) =~= addresses(
                    self.clients@.take(k as int),
                ).push(self.clients@[k as int]@));
            }
            if self.clients[k] != sender {
                let ghost old_targets = targets@;
                targets.push(self.clients[k].clone());
                assert(addresses(targets@) =~= addresses(old_targets).push(
                    self.clients@[k as int]@,
                ));
            }
            k = k + 1;
        }
        assert(self.clients@.take(self.clients.len() as int) =~= self.clients@);
        proof {
            lemma_relay_targets(before, sender@, message@);
            assert forall|j: int| 0 <= j < targets@.len() implies #[trigger] targets@[j]@
                != sender@ && self@.contains(targets@[j]@) by {
                assert(addresses(targets@)[j] == targets@[j]@);
                assert(addresses(targets@).contains(targets@[j]@));
            }
        }
        Some(targets)
    }
}

/// A `Connect` is relayed to nobody, whatever the registry and the sender;
/// neither is the first datagram a server ever receives.
pub proof fn lemma_connect_goes_nowhere(
    before: Seq<Seq<char>>,
    sender: Seq<char>,
    message: MessageView,
)
    ensures
        message.message_type == MessageType::Connect ==> relay_targets(
            before,
            sender,
            message,
        ).len() == 0,
        before.len() == 0 ==> relay_targets(before, sender, message).len() == 0,
{
}

/// Filtering keeps a sequence free of repeats.
proof fn lemma_filter_distinct(s: Seq<Seq<char>>, p: spec_fn(Seq<char>) -> bool)
    requires
        s.no_duplicates(),
    ensures
        s.filter(p).no_duplicates(),
    decreases s.len(),
{
    broadcast use Seq::lemma_filter_push;

    if s.len() > 0 {
        let init = s.drop_last();
        assert(init.push(s.last()) =~= s);
        lemma_filter_distinct(init, p);
        if p(s.last()) {
            if init.filter(p).contains(s.last()) {
                init.lemma_filter_contains_rev(p, s.last());
                let j = choose|j: int| 0 <= j < init.len() && init[j] == s.last();
                assert(s[j] == s[s.len() - 1]);
            }
        }
    }
}

/// What a relay decision promises: the sender is never sent its own
/// datagram, nobody is sent it twice, only registered clients are sent it,
/// and an audio or disconnect datagram, once anybody else was known, reaches
/// every registered client other than the sender.
pub proof fn lemma_relay_targets(before: Seq<Seq<char>>, sender: Seq<char>, message: MessageView)
    requires
        before.no_duplicates(),
    ensures
        registered(before, sender).no_duplicates(),
        registered(before, sender).contains(sender),
        !relay_targets(before, sender, message).contains(sender),
        relay_targets(before, sender, message).no_duplicates(),
        forall|c: Seq<char>| #[trigger]
            relay_targets(before, sender, message).contains(c) ==> registered(
                before,
                sender,
            ).contains(c),
        message.message_type != MessageType::Connect && before.len() > 0 ==> forall|c: Seq<char>|
            #[trigger] relay_targets(before, sender, message).contains(c) <==> (before.contains(c)
                && c != sender),
{
    broadcast use Seq::lemma_filter_contains_rev;

    let after = registered(before, sender);
    if !before.contains(sender) {
        assert forall|i: int, j: int|
            0 <= i < after.len() && 0 <= j < after.len() && i != j implies after[i]
            != after[j] by {
            if i == before.len() {
                assert(before[j] == after[j]);
            } else if j == before.len() {
                assert(before[i] == after[i]);
            }
        }
        assert(after[before.len() as int] == sender);
    } else {
        let j = choose|j: int| 0 <= j < before.len() && before[j] == sender;
        assert(after[j] == sender);
    }
    lemma_filter_distinct(after, is_other(sender));
    let targets = relay_targets(before, sender, message);
    if targets.contains(sender) {
        let i = choose|i: int| 0 <= i < targets.len() && targets[i] == sender;
        after.lemma_filter_pred(is_other(sender), i);
    }
    if message.message_type != MessageType::Connect && before.len() > 0 {
        assert forall|c: Seq<char>| #[trigger] targets.contains(c) <==> (before.contains(c) && c
            != sender) by {
            if before.contains(c) && c != sender {
                let j = choose|j: int| 0 <= j < before.len() && before[j] == c;
                assert(after[j] == c);
                after.lemma_filter_contains(is_other(sender), j);
            }
            if targets.contains(c) {
                let i = choose|i: int| 0 <= i < targets.len() && targets[i] == c;
                after.lemma_filter_pred(is_other(sender), i);
                assert(after.contains(c));
                if !before.contains(c) {
                    let k = choose|k: int| 0 <= k < after.len() && after[k] == c;
                    assert(k == before.len());
                }
            }
        }
    }
}

/// Whatever the datagrams carry, the registry after datagrams from `senders`
/// holds each sender exactly once, in the order of first arrival, and so
/// the number of connected clients is the number of distinct senders.
pub proof fn lemma_registry(senders: Seq<Seq<char>>)
    ensures
        registered_all(senders).no_duplicates(),
        registered_all(senders).to_set() == senders.to_set(),
        registered_all(senders).len() == senders.to_set().len(),
    decreases senders.len(),
{
    if senders.len() > 0 {
        let init = senders.drop_last();
        lemma_registry(init);
        lemma_relay_targets(
            registered_all(init),
            senders.last(),
            MessageView { message_type: MessageType::Connect, data: Seq::empty() },
        );
        let r = registered_all(senders);
        assert(senders =~= init.push(senders.last()));
        let prev = registered_all(init);
        assert forall|c: Seq<char>| r.contains(c) <==> senders.contains(c) by {
            assert(prev.to_set().contains(c) == prev.contains(c));
            assert(init.to_set().contains(c) == init.contains(c));
            if senders.contains(c) {
                let k = choose|k: int| 0 <= k < senders.len() && senders[k] == c;
                if k < init.len() {
                    assert(init[k] == c);
                    assert(prev.contains(c));
                    let m = choose|m: int| 0 <= m < prev.len() && prev[m] == c;
                    if !prev.contains(senders.last()) {
                        assert(r[m] == c);
                    }
                } else {
                    assert(c == senders.last());
                }
            }
            if r.contains(c) {
                if c == senders.last() {
                    assert(senders[senders.len() - 1] == c);
                } else {
                    let m = choose|m: int| 0 <= m < r.len() && r[m] == c;
                    if !prev.contains(senders.last()) {
                        assert(m < prev.len());
                        assert(prev[m] == c);
                    }
                    assert(prev.contains(c));
                    assert(init.contains(c));
                    let k = choose|k: int| 0 <= k < init.len() && init[k] == c;
                    assert(senders[k] == c);
                }
            }
        }
        assert(r.to_set() =~= senders.to_set());
    }
    registered_all(senders).unique_seq_to_set();
}

} // verus!
