use vstd::prelude::*;

use crate::channel::LoggedSyncSender;
use crate::domain::order::Order;
use crate::domain::portfolio::{first_index, lemma_first_index, lemma_first_index_is, lemma_first_index_push};
use crate::text::concat;

verus! {

/// The channel orders for one exchange are sent on.
pub struct ExchangeChannel {
    pub name: String,
    pub sender: LoggedSyncSender<Order>,
}

/// Routes orders to exchanges by name, counting the orders delivered.
pub struct OrderRouter {
    pub exchange_channels: Vec<ExchangeChannel>,
    pub routed_order_count: u64,
}

/// The names of a list of exchange channels, in order.
pub open spec fn channel_names(list: Seq<ExchangeChannel>) -> Seq<Seq<char>> {
    list.map_values(|c: ExchangeChannel| c.name@)
}

/// The message for an order sent to an exchange that is not registered.
pub open spec fn channel_not_found(name: Seq<char>) -> Seq<char> {
    "Exchange '"@ + name + "' channel not found"@
}

/// The orders that sending `sends` (exchange name and order, in turn) hands to
/// the channel of exchange `s`, when `s` is registered.
pub open spec fn handed_by(sends: Seq<(Seq<char>, Order)>, s: Seq<char>, registered: bool) -> Seq<Order>
    decreases sends.len(),
{
    if sends.len() == 0 {
        Seq::empty()
    } else {
        handed_by(sends.drop_last(), s, registered) + (if registered && sends.last().0 == s {
            seq![sends.last().1]
        } else {
            Seq::empty()
        })
    }
}

proof fn lemma_handed_by_one(name: Seq<char>, o: Order, s: Seq<char>, registered: bool)
    ensures
        handed_by(seq![(name, o)], s, registered) == (if registered && name == s { seq![o] } else { Seq::<Order>::empty() }),
{
    let sends = seq![(name, o)];
    assert(sends.drop_last() =~= Seq::<(Seq<char>, Order)>::empty());
    assert(handed_by(sends.drop_last(), s, registered) == Seq::<Order>::empty());
    assert(sends.last() == (name, o));
}

/// Hands `order` to the sender of the `i`-th channel.
fn send_on(list: &mut Vec<ExchangeChannel>, i: usize, order: Order) -> (r: Result<(), String>)
    requires
        i < old(list)@.len(),
    ensures
        final(list)@.len() == old(list)@.len(),
        forall|k: int| 0 <= k < old(list)@.len() && k != i ==> #[trigger] final(list)@[k] == old(list)@[k],
        final(list)@[i as int].name == old(list)@[i as int].name,
        final(list)@[i as int].sender.sent@ == old(list)@[i as int].sender.sent@.push(order),
{
    let ghost l0 = list@;
    let mut ch = list.remove(i);
    let r = ch.sender.send(order);
    list.insert(i, ch);
    proof {
        assert forall|k: int| 0 <= k < l0.len() && k != i implies #[trigger] list@[k] == l0[k] by {
            if k < i {
                assert(list@[k] == l0.remove(i as int)[k]);
            } else {
                assert(list@[k] == l0.remove(i as int)[k - 1]);
            }
        }
    }
    r
}

fn find_channel(list: &Vec<ExchangeChannel>, name: &String) -> (r: Option<usize>)
    ensures
        match r {
            Some(i) => i < list@.len() && first_index(channel_names(list@), name@) == i,
            None => first_index(channel_names(list@), name@) == -1,
        },
{
    let ghost keys = channel_names(list@);
    let n = list.len();
    let mut i: usize = 0;
    while i < n
        invariant
            n == list@.len(),
            keys == channel_names(list@),
            i <= n,
            forall|k: int| 0 <= k < i ==> keys[k] != name@,
        decreases n - i,
    {
        if list[i].name == *name {
            proof {
                lemma_first_index_is(keys, name@, i as int);
            }
            return Some(i);
        }
        i = i + 1;
    }
    proof {
        lemma_first_index_is(keys, name@, n as int);
    }
    None
}

impl OrderRouter {
    /// An exchange named `name` is registered.
    pub open spec fn has_exchange(self, name: Seq<char>) -> bool {
        first_index(channel_names(self.exchange_channels@), name) >= 0
    }

    /// The orders handed so far to the channel of exchange `name` since it was
    /// registered (none when it is not registered).
    pub open spec fn handed_to(self, name: Seq<char>) -> Seq<Order> {
        let i = first_index(channel_names(self.exchange_channels@), name);
        if i >= 0 {
            self.exchange_channels@[i].sender.sent@
        } else {
            Seq::empty()
        }
    }

    /// A router with no exchange, which has handed no order to any channel.
    pub fn new() -> (r: Self)
        ensures
            r.exchange_channels@.len() == 0,
            r.routed_order_count == 0,
            forall|s: Seq<char>| !#[trigger] r.has_exchange(s),
            forall|s: Seq<char>| #[trigger] r.handed_to(s) == Seq::<Order>::empty(),
    {
        Self { exchange_channels: Vec::new(), routed_order_count: 0 }
    }

    /// Registers `sender` as the channel of exchange `exchange_name`, replacing
    /// the channel it had.
    pub fn register_exchange(&mut self, exchange_name: String, sender: std::sync::mpsc::SyncSender<Order>)
        ensures
            final(self).has_exchange(exchange_name@),
            forall|s: Seq<char>| #[trigger] final(self).has_exchange(s) == (old(self).has_exchange(s) || s == exchange_name@),
            channel_names(final(self).exchange_channels@).len() == channel_names(old(self).exchange_channels@).len()
                + (if old(self).has_exchange(exchange_name@) { 0int } else { 1int }),
            final(self).handed_to(exchange_name@) == Seq::<Order>::empty(),
            forall|s: Seq<char>| s != exchange_name@ ==> #[trigger] final(self).handed_to(s) == old(self).handed_to(s),
            final(self).routed_order_count == old(self).routed_order_count,
    {
        let ghost keys0 = channel_names(self.exchange_channels@);
        let ghost old_self = *self;
        let channel = ExchangeChannel { name: exchange_name, sender: LoggedSyncSender::new(sender) };
        match find_channel(&self.exchange_channels, &channel.name) {
            Some(i) => {
                self.exchange_channels.set(i, channel);
                proof {
                    lemma_first_index(keys0, exchange_name@);
                    assert(channel_names(self.exchange_channels@) =~= keys0);
                    assert forall|s: Seq<char>| s != exchange_name@ implies #[trigger] self.handed_to(s) == old_self.handed_to(s) by {
                        lemma_first_index(keys0, s);
                        let f = first_index(keys0, s);
                        if f >= 0 {
                            assert(f != i);
                        }
                    }
                }
            },
            None => {
                self.exchange_channels.push(channel);
                proof {
                    assert(channel_names(self.exchange_channels@) =~= keys0.push(exchange_name@));
                    assert forall|s: Seq<char>| #[trigger] self.has_exchange(s) == (old(self).has_exchange(s) || s == exchange_name@) by {
                        lemma_first_index_push(keys0, exchange_name@, s);
                    }
                    lemma_first_index_push(keys0, exchange_name@, exchange_name@);
                    assert forall|s: Seq<char>| s != exchange_name@ implies #[trigger] self.handed_to(s) == old_self.handed_to(s) by {
                        lemma_first_index_push(keys0, exchange_name@, s);
                        lemma_first_index(keys0, s);
                    }
                }
            },
        }
    }

    /// Sends `order` on the channel of exchange `exchange_name`, counting it when
    /// the channel takes it; an exchange that is not registered is refused. The
    /// order is handed to the channel's sender whether or not the send succeeds.
    pub fn send_order(&mut self, exchange_name: &str, order: Order) -> (r: Result<(), String>)
        requires
            old(self).routed_order_count < u64::MAX,
        ensures
            channel_names(final(self).exchange_channels@) == channel_names(old(self).exchange_channels@),
            forall|s: Seq<char>| #[trigger] final(self).handed_to(s) == old(self).handed_to(s) + handed_by(
                seq![(exchange_name@, order)],
                s,
                old(self).has_exchange(s),
            ),
            old(self).has_exchange(exchange_name@) ==> (r is Ok ==> final(self).routed_order_count == old(self).routed_order_count + 1),
            old(self).has_exchange(exchange_name@) ==> (r is Err ==> final(self).routed_order_count == old(self).routed_order_count),
            !old(self).has_exchange(exchange_name@) ==> (r matches Err(e) && e@ == channel_not_found(exchange_name@)),
            !old(self).has_exchange(exchange_name@) ==> final(self).routed_order_count == old(self).routed_order_count,
    {
        let ghost old_self = *self;
        let ghost sends = seq![(exchange_name@, order)];
        proof {
            assert(sends.drop_last() =~= Seq::<(Seq<char>, Order)>::empty());
        }
        let key = String::from_str(exchange_name);
        match find_channel(&self.exchange_channels, &key) {
            Some(i) => {
                let ghost keys0 = channel_names(self.exchange_channels@);
                let sent = send_on(&mut self.exchange_channels, i, order);
                proof {
                    assert(channel_names(self.exchange_channels@) =~= keys0);
                    lemma_first_index(keys0, exchange_name@);
                    assert forall|s: Seq<char>| #[trigger] self.handed_to(s) == old_self.handed_to(s) + handed_by(
                        sends,
                        s,
                        old_self.has_exchange(s),
                    ) by {
                        lemma_first_index(keys0, s);
                        lemma_handed_by_one(exchange_name@, order, s, old_self.has_exchange(s));
                        if s == exchange_name@ {
                            assert(first_index(keys0, s) == i);
                            assert(self.handed_to(s) =~= old_self.handed_to(s) + seq![order]);
                        } else {
                            let f = first_index(keys0, s);
                            if f >= 0 {
                                assert(f != i);
                            }
                            assert(old_self.handed_to(s) + Seq::<Order>::empty() =~= old_self.handed_to(s));
                        }
                    }
                }
                let ghost mid = *self;
                let r = match sent {
                    Ok(()) => {
                        self.routed_order_count = self.routed_order_count + 1;
                        Ok(())
                    },
                    Err(e) => Err(e),
                };
                assert(forall|s: Seq<char>| #[trigger] self.handed_to(s) == mid.handed_to(s));
                r
            },
            None => {
                proof {
                    assert forall|s: Seq<char>| #[trigger] self.handed_to(s) == old_self.handed_to(s) + handed_by(
                        sends,
                        s,
                        old_self.has_exchange(s),
                    ) by {
                        lemma_handed_by_one(exchange_name@, order, s, old_self.has_exchange(s));
                        if s == exchange_name@ {
                            assert(!old_self.has_exchange(s));
                        }
                        assert(old_self.handed_to(s) + Seq::<Order>::empty() =~= old_self.handed_to(s));
                    }
                }
                let mut e = concat("Exchange '", exchange_name);
                e.append("' channel not found");
                Err(e)
            },
        }
    }
}

} // verus!
