//! What holds between a terminal and the session that it is attached to.

use vstd::prelude::*;

use crate::protocol::{Content, MAX_PAYLOAD};
use crate::relay::{Link, News, Order, Outcome};
use crate::server::{Peer, Session};
use crate::sys::{Arrival, Events, Signal};

verus! {

impl Link {
    /// What is done while all this happens, one after the other.
    pub open spec fn orders(self, news: Seq<News>) -> Seq<Order>
        decreases news.len(),
    {
        if news.len() == 0 {
            Seq::empty()
        } else {
            let (next, order) = self.after(news[0]);
            seq![order] + next.orders(news.drop_first())
        }
    }

    /// What stands between the two once all this has happened, one after the other.
    pub open spec fn afterwards(self, news: Seq<News>) -> Link
        decreases news.len(),
    {
        if news.len() == 0 {
            self
        } else {
            self.after(news[0]).0.afterwards(news.drop_first())
        }
    }

    /// Whether nothing else is to be done in this round.
    pub open spec fn quiet(self) -> bool {
        &&& self.signals.len() == 0
        &&& !self.socket
        &&& !self.messages
        &&& !self.input
        &&& self.outgoing.len() == 0
        &&& !self.leaving
    }
}

/// The same thing happening `count` times.
pub open spec fn times(count: nat, news: News) -> Seq<News> {
    Seq::new(count, |i: int| news)
}

/// Each of `pieces` being sent.
pub open spec fn sends(pieces: Seq<Seq<u8>>) -> Seq<Order> {
    Seq::new(pieces.len(), |i: int| Order::Send(pieces[i]))
}

/// Each of `pieces` being shown.
pub open spec fn shows(pieces: Seq<Seq<u8>>) -> Seq<Order> {
    Seq::new(pieces.len(), |i: int| Order::Show(pieces[i]))
}

proof fn position_is_first(data: Seq<u8>, byte: u8)
    ensures
        ({
            let at = crate::relay::position(data, byte);
            &&& at <= data.len()
            &&& forall|i: int| 0 <= i < at ==> data[i] != byte
            &&& at < data.len() ==> data[at as int] == byte
        }),
    decreases data.len(),
{
    if data.len() > 0 && data[0] != byte {
        let later = data.drop_first();
        position_is_first(later, byte);
        assert forall|i: int| 0 <= i < crate::relay::position(data, byte) implies data[i]
            != byte by {
            if i > 0 {
                assert(data[i] == later[i - 1]);
            }
        }
    }
}

/// What is forwarded is what is typed up to the first detach key, or all of it where the
/// key is not among it.
pub proof fn forwarded_up_to_the_key(data: Seq<u8>, key: u8)
    ensures
        ({
            let forwarded = crate::relay::before_key(data, key);
            &&& !forwarded.contains(key)
            &&& forwarded.is_prefix_of(data)
            &&& if data.contains(key) {
                forwarded.len() < data.len() && data[forwarded.len() as int] == key
            } else {
                forwarded == data
            }
        }),
{
    position_is_first(data, key);
    let at = crate::relay::position(data, key);
    if data.contains(key) {
        let i = choose|i: int| 0 <= i < data.len() && data[i] == key;
        assert(at <= i);
    } else if at < data.len() {
        assert(data.contains(data[at as int]));
    }
}

proof fn sent_in_order(link: Link)
    requires
        link.signals.len() == 0,
        !link.socket,
        !link.messages,
        !link.input,
    ensures
        ({
            let (next, order) = link.next();
            seq![order] + next.orders(times(link.outgoing.len(), News::Sent(Ok(())))) == sends(
                link.outgoing,
            ) + seq![
                if link.leaving {
                    Order::Finish(Ok(Outcome::Detached))
                } else {
                    Order::Poll
                },
            ]
        }),
    decreases link.outgoing.len(),
{
    let frames = link.outgoing;
    let (next, order) = link.next();
    let last = if link.leaving {
        Order::Finish(Ok(Outcome::Detached))
    } else {
        Order::Poll
    };
    if frames.len() == 0 {
        assert(times(0, News::Sent(Ok(()))) == Seq::<News>::empty());
        assert(seq![order] + Seq::<Order>::empty() == sends(frames) + seq![last]);
    } else {
        sent_in_order(next);
        let news = times(frames.len(), News::Sent(Ok(())));
        assert(news.drop_first() == times((frames.len() - 1) as nat, News::Sent(Ok(()))));
        assert(sends(frames) == seq![order] + sends(frames.drop_first()));
        assert(seq![order] + (sends(frames.drop_first()) + seq![last]) == sends(frames)
            + seq![last]);
    }
}

/// What is typed before the detach key is sent to the session, frame by frame; then the
/// terminal is left if the key was typed, and else everything goes on.
pub proof fn typing_is_sent(link: Link, data: Seq<u8>)
    requires
        link.quiet(),
    ensures
        ({
            let frames = crate::relay::input_frames(
                crate::relay::before_key(data, link.detach_key),
            );
            link.orders(
                seq![News::Typed(Arrival::Data(data))] + times(
                    frames.len(),
                    News::Sent(Ok(())),
                ),
            ) == sends(frames) + seq![
                if data.contains(link.detach_key) {
                    Order::Finish(Ok(Outcome::Detached))
                } else {
                    Order::Poll
                },
            ]
        }),
{
    let frames = crate::relay::input_frames(crate::relay::before_key(data, link.detach_key));
    let typed = Link { outgoing: frames, leaving: data.contains(link.detach_key), ..link };
    sent_in_order(typed);
    let sent = times(frames.len(), News::Sent(Ok(())));
    let news = seq![News::Typed(Arrival::Data(data))] + sent;
    assert(news.drop_first() == sent);
}

proof fn joined_frames(messages: Seq<Content>)
    ensures
        crate::protocol_laws::joined(
            Seq::new(messages.len(), |i: int| messages[i].frame()),
        ) == crate::protocol_laws::frames(messages),
    decreases messages.len(),
{
    let frames = Seq::new(messages.len(), |i: int| messages[i].frame());
    if messages.len() > 0 {
        let later = messages.drop_first();
        joined_frames(later);
        assert(frames.drop_first() == Seq::new(later.len(), |i: int| later[i].frame()));
    }
}

/// What is typed before the detach key reaches the program of the session, behind what was
/// typed before and however the bytes are cut into reads, and nothing that is typed behind
/// the key does.
pub proof fn typing_reaches_the_program<S>(
    data: Seq<u8>,
    key: u8,
    session: Session<S>,
    i: int,
    pending: Seq<Seq<u8>>,
    reads: Seq<Seq<u8>>,
)
    requires
        0 <= i < session.clients.len(),
        session.clients[i].attached,
        !session.clients[i].closing,
        !session.clients[i].dropped,
        reads.len() > 0,
        session.clients[i].unread + crate::protocol_laws::joined(reads)
            == crate::protocol_laws::frames(crate::server_laws::inputs(pending))
            + crate::protocol_laws::joined(
            crate::relay::input_frames(crate::relay::before_key(data, key)),
        ),
        forall|k: int| 0 <= k < pending.len() ==> (#[trigger] pending[k]).len() <= MAX_PAYLOAD,
    ensures
        session.client_reads(i, reads).0 == (Session {
            backlog: session.backlog + (crate::protocol_laws::joined(pending)
                + crate::relay::before_key(data, key)),
            ..session.with_client(i, Peer { unread: Seq::empty(), ..session.clients[i] })
        }),
{
    let typed = crate::relay::before_key(data, key);
    let pieces = crate::protocol::chunked(typed);
    let messages = crate::server_laws::inputs(pieces);
    let frames = crate::relay::input_frames(typed);
    assert(frames == Seq::new(messages.len(), |k: int| messages[k].frame()));
    joined_frames(messages);
    crate::protocol_laws::chunks_keep_data(typed);
    let all = pending + pieces;
    assert(crate::server_laws::inputs(all) == crate::server_laws::inputs(pending) + messages);
    crate::protocol_laws::frames_in_parts(crate::server_laws::inputs(pending), messages);
    crate::protocol_laws::joined_in_parts(pending, pieces);
    assert forall|k: int| 0 <= k < all.len() implies (#[trigger] all[k]).len() <= MAX_PAYLOAD by {
        if k < pending.len() {
            assert(all[k] == pending[k]);
        } else {
            assert(all[k] == pieces[k - pending.len()]);
        }
    }
    crate::server_laws::reads_in_any_pieces(session, i, reads);
    let client = session.clients[i];
    let unread = client.unread + crate::protocol_laws::joined(reads);
    let read = session.with_client(i, Peer { unread, ..client });
    crate::server_laws::input_reaches_the_program(read, i, all);
    assert(read.with_client(i, Peer { unread: Seq::empty(), ..client }).clients
        == session.with_client(i, Peer { unread: Seq::empty(), ..client }).clients);
}

/// All that is shown while this is done.
pub open spec fn shown(orders: Seq<Order>) -> Seq<u8>
    decreases orders.len(),
{
    if orders.len() == 0 {
        Seq::empty()
    } else {
        let later = shown(orders.drop_first());
        match orders[0] {
            Order::Show(data) => data + later,
            _ => later,
        }
    }
}

/// The modes once this is done, where they were those of `tracker`.
spec fn modes_after(tracker: crate::modes::Tracker, order: Order) -> crate::modes::Tracker {
    match order {
        Order::Show(data) => tracker.scan(data),
        _ => tracker,
    }
}

proof fn next_follows_modes(link: Link)
    ensures
        link.next().0.tracker == modes_after(link.tracker, link.next().1),
{
}

#[verifier::spinoff_prover]
proof fn step_follows_modes(link: Link, news: News)
    ensures
        link.after(news).0.tracker == modes_after(link.tracker, link.after(news).1),
{
    match news {
        News::Polled { input, socket, signals } => next_follows_modes(
            Link { socket: socket.spec_any(), input: input.spec_any(), ..link },
        ),
        News::Signals(signals) => next_follows_modes(Link { signals, ..link }),
        News::Received(Arrival::Data(data)) => next_follows_modes(
            Link { unread: link.unread + data, messages: true, ..link },
        ),
        News::Typed(Arrival::Data(data)) => next_follows_modes(
            Link {
                outgoing: crate::relay::input_frames(
                    crate::relay::before_key(data, link.detach_key),
                ),
                leaving: data.contains(link.detach_key),
                ..link
            },
        ),
        _ => next_follows_modes(link),
    }
}

/// The modes that are followed are those of what is shown, whatever happens.
pub proof fn modes_follow_what_is_shown(link: Link, news: Seq<News>)
    ensures
        link.afterwards(news).tracker == link.tracker.scan(shown(link.orders(news))),
    decreases news.len(),
{
    if news.len() > 0 {
        let (next, order) = link.after(news[0]);
        let later = news.drop_first();
        step_follows_modes(link, news[0]);
        modes_follow_what_is_shown(next, later);
        let orders = link.orders(news);
        assert(orders.drop_first() == next.orders(later));
        if let Order::Show(data) = order {
            crate::mode_laws::scan_in_pieces(link.tracker, data, shown(next.orders(later)));
        }
    }
}

/// Whatever happens while a terminal that was in its default modes is attached, leaving
/// the session puts the terminal back into them.
pub proof fn leaving_restores_the_terminal(session: Seq<char>, key: u8, news: Seq<News>)
    ensures
        ({
            let link = Link::fresh(session, key);
            let seen = shown(link.orders(news)) + link.afterwards(news).tracker.reset();
            let terminal = crate::modes::Tracker::initial().scan(seen);
            &&& terminal.modes == crate::modes::default_modes()
            &&& !terminal.keypad
        }),
{
    let link = Link::fresh(session, key);
    let seen = shown(link.orders(news));
    let tracker = link.afterwards(news).tracker;
    modes_follow_what_is_shown(link, news);
    crate::mode_laws::initial_wf();
    crate::mode_laws::scan_keeps_wf(link.tracker, seen);
    crate::mode_laws::scan_in_pieces(link.tracker, seen, tracker.reset());
    crate::mode_laws::reset_restores_defaults(tracker, tracker);
}

proof fn shown_pieces(pieces: Seq<Seq<u8>>, last: Order)
    requires
        last !is Show,
    ensures
        shown(shows(pieces) + seq![last]) == crate::protocol_laws::joined(pieces),
    decreases pieces.len(),
{
    let orders = shows(pieces) + seq![last];
    if pieces.len() == 0 {
        assert(orders == seq![last]);
        assert(orders.drop_first() == Seq::<Order>::empty());
        assert(shown(orders.drop_first()) == Seq::<u8>::empty());
    } else {
        shown_pieces(pieces.drop_first(), last);
        assert(orders.drop_first() == shows(pieces.drop_first()) + seq![last]);
    }
}

proof fn orders_in_parts(link: Link, first: Seq<News>, second: Seq<News>)
    ensures
        link.orders(first + second) == link.orders(first) + link.afterwards(first).orders(second),
        link.afterwards(first + second) == link.afterwards(first).afterwards(second),
    decreases first.len(),
{
    if first.len() == 0 {
        assert(first + second == second);
        assert(link.orders(first) + link.orders(second) == link.orders(second));
    } else {
        let (next, order) = link.after(first[0]);
        let later = first.drop_first();
        orders_in_parts(next, later, second);
        assert((first + second).drop_first() == later + second);
        assert((first + second)[0] == first[0]);
        assert(seq![order] + (next.orders(later) + next.afterwards(later).orders(second))
            == link.orders(first) + link.afterwards(first).orders(second));
    }
}

proof fn shown_in_parts(first: Seq<Order>, second: Seq<Order>)
    ensures
        shown(first + second) == shown(first) + shown(second),
    decreases first.len(),
{
    if first.len() == 0 {
        assert(first + second == second);
        assert(shown(first) + shown(second) == shown(second));
    } else {
        let later = first.drop_first();
        shown_in_parts(later, second);
        assert((first + second).drop_first() == later + second);
        assert((first + second)[0] == first[0]);
        if let Order::Show(data) = first[0] {
            assert(data + (shown(later) + shown(second)) == shown(first) + shown(second));
        }
    }
}

/// How many messages of output stand at the front.
pub open spec fn leading_outputs(messages: Seq<Content>) -> nat
    decreases messages.len(),
{
    if messages.len() == 0 || !(messages[0] is Output) {
        0
    } else {
        1 + leading_outputs(messages.drop_first())
    }
}

/// What happens when bytes come in these reads, behind `unread`: each read is received, and
/// then each piece of output that is complete is shown.
pub open spec fn arrivals(unread: Seq<u8>, reads: Seq<Seq<u8>>) -> Seq<News>
    decreases reads.len(),
{
    if reads.len() == 0 {
        Seq::empty()
    } else {
        let contents = crate::protocol_laws::contents(unread + reads[0]);
        seq![News::Received(Arrival::Data(reads[0]))] + times(
            leading_outputs(contents.messages),
            News::Shown(Ok(())),
        ) + arrivals(contents.rest, reads.drop_first())
    }
}

proof fn outputs_lead(pieces: Seq<Seq<u8>>, others: Seq<Content>)
    requires
        others.len() > 0 ==> !(others[0] is Output),
    ensures
        leading_outputs(crate::server_laws::outputs(pieces) + others) == pieces.len(),
    decreases pieces.len(),
{
    let all = crate::server_laws::outputs(pieces) + others;
    if pieces.len() == 0 {
        assert(all == others);
    } else {
        let later = pieces.drop_first();
        outputs_lead(later, others);
        assert(all[0] == Content::Output(pieces[0]));
        assert(all.drop_first() == crate::server_laws::outputs(later) + others);
    }
}

/// What the session has sent is dealt with message by message: output is shown, then comes
/// what ends it all, if that has been sent, and else the round goes on.
proof fn messages_in_order(link: Link, pieces: Seq<Seq<u8>>, others: Seq<Content>)
    requires
        link.signals.len() == 0,
        !link.socket,
        link.messages,
        crate::protocol_laws::contents(link.unread).messages == crate::server_laws::outputs(pieces)
            + others,
        others.len() > 0 ==> !(others[0] is Output),
        others.len() == 0 ==> crate::protocol_laws::contents(link.unread).refusal is None,
    ensures
        ({
            let (next, order) = link.next();
            let news = times(pieces.len(), News::Shown(Ok(())));
            let all = Link {
                unread: crate::protocol_laws::contents(link.unread).rest,
                messages: false,
                tracker: link.tracker.scan(crate::protocol_laws::joined(pieces)),
                ..link
            };
            if others.len() == 0 {
                &&& seq![order] + next.orders(news) == shows(pieces) + seq![all.ahead().1]
                &&& next.afterwards(news) == all.ahead().0
            } else {
                seq![order] + next.orders(news) == shows(pieces) + seq![link.told(others[0]).1]
            }
        }),
    decreases pieces.len(),
{
    let messages = crate::server_laws::outputs(pieces) + others;
    let (next, order) = link.next();
    let news = times(pieces.len(), News::Shown(Ok(())));
    let (taken, rest) = crate::protocol::take_message(link.unread);
    let all = Link {
        unread: crate::protocol_laws::contents(link.unread).rest,
        messages: false,
        tracker: link.tracker.scan(crate::protocol_laws::joined(pieces)),
        ..link
    };
    let last = if others.len() == 0 { all.ahead().1 } else { link.told(others[0]).1 };
    if pieces.len() == 0 {
        assert(messages == others);
        assert(news == Seq::<News>::empty());
        if others.len() > 0 {
            assert(taken == Ok::<Option<Content>, Seq<char>>(Some(others[0])));
        }
        assert(order == last);
        assert(seq![order] + Seq::<Order>::empty() == shows(pieces) + seq![last]);
    } else {
        let later = pieces.drop_first();
        assert(messages[0] == Content::Output(pieces[0]));
        assert(messages.drop_first() == crate::server_laws::outputs(later) + others);
        assert(taken == Ok::<Option<Content>, Seq<char>>(Some(messages[0])));
        let more = crate::protocol_laws::contents(rest);
        assert((seq![messages[0]] + more.messages).drop_first() == more.messages);
        messages_in_order(next, later, others);
        crate::mode_laws::scan_in_pieces(
            link.tracker,
            pieces[0],
            crate::protocol_laws::joined(later),
        );
        assert(news.drop_first() == times(later.len(), News::Shown(Ok(()))));
        assert(shows(pieces) == seq![order] + shows(later));
        assert(seq![order] + (shows(later) + seq![last]) == shows(pieces) + seq![last]);
    }
}

/// One read, with all the output that it completes shown.
proof fn one_read(link: Link, read: Seq<u8>, pieces: Seq<Seq<u8>>, others: Seq<Content>)
    requires
        link.signals.len() == 0,
        !link.socket,
        crate::protocol_laws::contents(link.unread + read).messages
            == crate::server_laws::outputs(pieces) + others,
        others.len() > 0 ==> !(others[0] is Output),
        others.len() == 0 ==> crate::protocol_laws::contents(link.unread + read).refusal is None,
    ensures
        ({
            let news = seq![News::Received(Arrival::Data(read))] + times(
                leading_outputs(crate::protocol_laws::contents(link.unread + read).messages),
                News::Shown(Ok(())),
            );
            let all = Link {
                unread: crate::protocol_laws::contents(link.unread + read).rest,
                messages: false,
                tracker: link.tracker.scan(crate::protocol_laws::joined(pieces)),
                ..link
            };
            if others.len() == 0 {
                &&& link.orders(news) == shows(pieces) + seq![all.ahead().1]
                &&& link.afterwards(news) == all.ahead().0
            } else {
                link.orders(news) == shows(pieces) + seq![link.told(others[0]).1]
            }
        }),
{
    let received = Link { unread: link.unread + read, messages: true, ..link };
    outputs_lead(pieces, others);
    messages_in_order(received, pieces, others);
    let shown = times(pieces.len(), News::Shown(Ok(())));
    let news = seq![News::Received(Arrival::Data(read))] + shown;
    assert(news.drop_first() == shown);
}

/// What a cut leaves on its two sides: messages that are output as long as those of the
/// whole are.
proof fn cut_messages(
    first: Seq<u8>,
    second: Seq<u8>,
    pieces: Seq<Seq<u8>>,
    others: Seq<Content>,
) -> (count: int)
    requires
        crate::protocol_laws::contents(first + second).messages == crate::server_laws::outputs(
            pieces,
        ) + others,
        crate::protocol_laws::contents(first + second).refusal is None,
        crate::protocol_laws::contents(first + second).rest.len() == 0,
        second.len() > 0 || others.len() == 0,
        others.len() <= 1,
    ensures
        0 <= count <= pieces.len(),
        ({
            let early = crate::protocol_laws::contents(first);
            &&& early.refusal is None
            &&& early.messages == crate::server_laws::outputs(pieces.take(count))
            &&& crate::protocol_laws::contents(early.rest + second)
                == (crate::protocol_laws::Contents {
                messages: crate::server_laws::outputs(pieces.skip(count)) + others,
                refusal: None,
                rest: Seq::empty(),
            })
        }),
{
    let all = crate::protocol_laws::contents(first + second);
    let early = crate::protocol_laws::contents(first);
    crate::protocol_laws::pieces_read_as_one(first, second);
    let late = crate::protocol_laws::contents(early.rest + second);
    let count = early.messages.len() as int;
    assert(all.messages == early.messages + late.messages);
    if late.messages.len() == 0 && others.len() > 0 {
        assert(late.rest == early.rest + second);
        assert(late.rest.len() == 0);
    }
    assert(count <= pieces.len());
    assert(early.messages == all.messages.take(count));
    assert(late.messages == all.messages.skip(count));
    assert(early.messages == crate::server_laws::outputs(pieces.take(count)));
    assert(late.messages == crate::server_laws::outputs(pieces.skip(count)) + others);
    assert(late.rest == Seq::<u8>::empty());
    count
}

/// Whether none of this ends it all.
pub open spec fn unfinished(orders: Seq<Order>) -> bool {
    forall|j: int| 0 <= j < orders.len() ==> !((#[trigger] orders[j]) is Finish)
}

/// Whether this shows exactly `pieces`, and ends with the message that ends it all if
/// there is one, and not before.
spec fn shows_all(
    link: Link,
    orders: Seq<Order>,
    pieces: Seq<Seq<u8>>,
    others: Seq<Content>,
) -> bool {
    &&& shown(orders) == crate::protocol_laws::joined(pieces)
    &&& others.len() == 0 && !link.leaving ==> unfinished(orders)
    &&& others.len() > 0 ==> {
        &&& orders.len() > 0
        &&& orders.last() == link.told(others[0]).1
        &&& !link.leaving ==> unfinished(orders.drop_last())
    }
}

/// What follows the pieces shown in one round comes behind them.
proof fn shows_more(
    link: Link,
    next: Link,
    order: Order,
    later: Seq<Order>,
    first: Seq<Seq<u8>>,
    second: Seq<Seq<u8>>,
    others: Seq<Content>,
)
    requires
        !(order is Show),
        !link.leaving ==> !next.leaving && !(order is Finish),
        others.len() > 0 ==> !(others[0] is Output),
        shows_all(next, later, second, others),
    ensures
        shows_all(link, shows(first) + seq![order] + later, first + second, others),
{
    let now = shows(first) + seq![order];
    let all = now + later;
    shown_in_parts(now, later);
    shown_pieces(first, order);
    crate::protocol_laws::joined_in_parts(first, second);
    if !link.leaving {
        assert(unfinished(now));
    }
    if others.len() > 0 {
        assert(all.last() == later.last());
        assert(all.drop_last() == now + later.drop_last());
    }
}

proof fn shows_last(
    link: Link,
    order: Order,
    pieces: Seq<Seq<u8>>,
    others: Seq<Content>,
)
    requires
        !(order is Show),
        others.len() == 0 && !link.leaving ==> !(order is Finish),
        others.len() > 0 ==> order == link.told(others[0]).1,
    ensures
        shows_all(link, shows(pieces) + seq![order], pieces, others),
{
    let orders = shows(pieces) + seq![order];
    shown_pieces(pieces, order);
    assert(orders.last() == order);
    assert(orders.drop_last() == shows(pieces));
    assert(unfinished(shows(pieces)));
}

/// What comes in a single read.
proof fn only_read(link: Link, read: Seq<u8>, pieces: Seq<Seq<u8>>, others: Seq<Content>)
    requires
        link.signals.len() == 0,
        !link.socket,
        crate::protocol_laws::contents(link.unread + read).messages
            == crate::server_laws::outputs(pieces) + others,
        crate::protocol_laws::contents(link.unread + read).refusal is None,
        others.len() > 0 ==> !(others[0] is Output),
    ensures
        shows_all(link, link.orders(arrivals(link.unread, seq![read])), pieces, others),
{
    let early = crate::protocol_laws::contents(link.unread + read);
    let news = seq![News::Received(Arrival::Data(read))] + times(
        leading_outputs(early.messages),
        News::Shown(Ok(())),
    );
    let reads = seq![read];
    assert(reads.drop_first() == Seq::<Seq<u8>>::empty());
    assert(arrivals(early.rest, reads.drop_first()) == Seq::<News>::empty());
    assert(news + Seq::<News>::empty() == news);
    assert(arrivals(link.unread, reads) == news);
    one_read(link, read, pieces, others);
    let all = Link {
        unread: early.rest,
        messages: false,
        tracker: link.tracker.scan(crate::protocol_laws::joined(pieces)),
        ..link
    };
    let last = if others.len() == 0 { all.ahead().1 } else { link.told(others[0]).1 };
    shows_last(link, last, pieces, others);
}

#[verifier::spinoff_prover]
proof fn all_reads(link: Link, reads: Seq<Seq<u8>>, pieces: Seq<Seq<u8>>, others: Seq<Content>)
    requires
        link.signals.len() == 0,
        !link.socket,
        reads.len() > 0,
        crate::protocol_laws::contents(link.unread + crate::protocol_laws::joined(reads))
            == (crate::protocol_laws::Contents {
            messages: crate::server_laws::outputs(pieces) + others,
            refusal: None,
            rest: Seq::empty(),
        }),
        others.len() <= 1,
        others.len() > 0 ==> !(others[0] is Output),
        others.len() > 0 ==> forall|k: int| 0 <= k < reads.len() ==> (#[trigger] reads[k]).len() > 0,
    ensures
        shows_all(link, link.orders(arrivals(link.unread, reads)), pieces, others),
    decreases reads.len(),
{
    let read = reads[0];
    let later = reads.drop_first();
    let behind = crate::protocol_laws::joined(later);
    let buffer = link.unread + read;
    assert(link.unread + crate::protocol_laws::joined(reads) == buffer + behind);
    if later.len() == 0 {
        assert(behind == Seq::<u8>::empty());
        assert(buffer + behind == buffer);
        only_read(link, read, pieces, others);
        assert(reads == seq![read]);
    } else {
        if others.len() > 0 {
            assert(later[0].len() > 0) by {
                assert(later[0] == reads[1]);
            }
            assert forall|k: int| 0 <= k < later.len() implies (#[trigger] later[k]).len() > 0 by {
                assert(later[k] == reads[k + 1]);
            }
        }
        let early = crate::protocol_laws::contents(buffer);
        let count = cut_messages(buffer, behind, pieces, others);
        let first = pieces.take(count);
        let second = pieces.skip(count);
        assert(first + second == pieces);
        assert(crate::server_laws::outputs(first) + Seq::<Content>::empty()
            == crate::server_laws::outputs(first));
        one_read(link, read, first, Seq::empty());
        let all = Link {
            unread: early.rest,
            messages: false,
            tracker: link.tracker.scan(crate::protocol_laws::joined(first)),
            ..link
        };
        let (next, order) = all.ahead();
        all_reads(next, later, second, others);
        let news = seq![News::Received(Arrival::Data(read))] + times(
            leading_outputs(early.messages),
            News::Shown(Ok(())),
        );
        let more = arrivals(early.rest, later);
        assert(arrivals(link.unread, reads) == news + more);
        orders_in_parts(link, news, more);
        shows_more(link, next, order, next.orders(more), first, second, others);
    }
}

/// What is put together out of nothing but frames of output, read back.
proof fn output_frames_read_back(pieces: Seq<Seq<u8>>, others: Seq<Content>)
    requires
        forall|k: int| 0 <= k < pieces.len() ==> (#[trigger] pieces[k]).len() <= MAX_PAYLOAD,
        forall|k: int|
            0 <= k < others.len() ==> (#[trigger] others[k]).payload().len() <= MAX_PAYLOAD,
    ensures
        crate::protocol_laws::contents(
            crate::protocol_laws::frames(crate::server_laws::outputs(pieces))
                + crate::protocol_laws::frames(others),
        ) == (crate::protocol_laws::Contents {
            messages: crate::server_laws::outputs(pieces) + others,
            refusal: None,
            rest: Seq::empty(),
        }),
{
    let outputs = crate::server_laws::outputs(pieces);
    let messages = outputs + others;
    crate::protocol_laws::frames_in_parts(outputs, others);
    assert forall|k: int| 0 <= k < messages.len() implies (
    #[trigger] messages[k]).payload().len() <= MAX_PAYLOAD by {
        if k < pieces.len() {
            assert(messages[k] == Content::Output(pieces[k]));
        } else {
            assert(messages[k] == others[k - pieces.len()]);
        }
    }
    crate::protocol_laws::frames_read_back(messages);
}

/// All output that a session sends to a terminal is shown there, in order and with nothing
/// else between, however the bytes are cut into reads: what the terminal had read of it
/// before, and what comes in these reads.
pub proof fn output_is_shown(link: Link, reads: Seq<Seq<u8>>, pieces: Seq<Seq<u8>>)
    requires
        link.signals.len() == 0,
        !link.socket,
        reads.len() > 0 || crate::protocol_laws::contents(link.unread).messages.len() == 0,
        link.unread + crate::protocol_laws::joined(reads) == crate::protocol_laws::frames(
            crate::server_laws::outputs(pieces),
        ),
        forall|k: int| 0 <= k < pieces.len() ==> (#[trigger] pieces[k]).len() <= MAX_PAYLOAD,
    ensures
        ({
            let news = arrivals(link.unread, reads);
            &&& shown(link.orders(news)) == crate::protocol_laws::joined(pieces)
            &&& !link.leaving ==> unfinished(link.orders(news))
            &&& link.afterwards(news).tracker == link.tracker.scan(
                crate::protocol_laws::joined(pieces),
            )
        }),
{
    let none = Seq::<Content>::empty();
    let outputs = crate::server_laws::outputs(pieces);
    output_frames_read_back(pieces, none);
    assert(crate::protocol_laws::frames(none) == Seq::<u8>::empty());
    assert(crate::protocol_laws::frames(outputs) + Seq::<u8>::empty()
        == crate::protocol_laws::frames(outputs));
    assert(outputs + none == outputs);
    if reads.len() == 0 {
        assert(link.unread + Seq::<u8>::empty() == link.unread);
        assert(outputs.len() == 0);
        assert(crate::protocol_laws::joined(pieces) == Seq::<u8>::empty());
        assert(link.orders(arrivals(link.unread, reads)) == Seq::<Order>::empty());
    } else {
        all_reads(link, reads, pieces, none);
    }
    modes_follow_what_is_shown(link, arrivals(link.unread, reads));
}

/// The message that ends it all is understood behind all output that was sent before it,
/// however the bytes are cut into reads: that output is shown, and then comes the end.
pub proof fn the_end_is_understood(
    link: Link,
    reads: Seq<Seq<u8>>,
    pieces: Seq<Seq<u8>>,
    last: Content,
)
    requires
        link.signals.len() == 0,
        !link.socket,
        !(last is Output),
        link.unread + crate::protocol_laws::joined(reads) == crate::protocol_laws::frames(
            crate::server_laws::outputs(pieces),
        ) + last.frame(),
        reads.len() > 0,
        forall|k: int| 0 <= k < reads.len() ==> (#[trigger] reads[k]).len() > 0,
        forall|k: int| 0 <= k < pieces.len() ==> (#[trigger] pieces[k]).len() <= MAX_PAYLOAD,
        last.payload().len() <= MAX_PAYLOAD,
    ensures
        ({
            let orders = link.orders(arrivals(link.unread, reads));
            &&& shown(orders) == crate::protocol_laws::joined(pieces)
            &&& orders.len() > 0
            &&& orders.last() == Order::Finish(
                match last {
                    Content::Exit(code) => Ok(Outcome::Exited(code)),
                    Content::Detached => Ok(Outcome::Disconnected),
                    Content::Error(text) => Err(text),
                    _ => Err("unexpected message from session"@),
                },
            )
            &&& !link.leaving ==> unfinished(orders.drop_last())
        }),
{
    let others = seq![last];
    assert(others.drop_first() == Seq::<Content>::empty());
    assert(crate::protocol_laws::frames(others.drop_first()) == Seq::<u8>::empty());
    assert(last.frame() + Seq::<u8>::empty() == last.frame());
    assert(crate::protocol_laws::frames(others) == last.frame());
    output_frames_read_back(pieces, others);
    all_reads(link, reads, pieces, others);
}

/// A terminal that attaches shows exactly what the session keeps for it, behind what it
/// was sent before: the output so far if it is the first one, and else what brings it into
/// the program's modes.
pub proof fn attached_terminal_shows_initial_output<S>(
    link: Link,
    session: Session<S>,
    i: int,
    pending: Seq<Seq<u8>>,
    reads: Seq<Seq<u8>>,
)
    requires
        link.signals.len() == 0,
        !link.socket,
        reads.len() > 0 || crate::protocol_laws::contents(link.unread).messages.len() == 0,
        0 <= i < session.clients.len(),
        link.unread + session.clients[i].outbox == crate::protocol_laws::frames(
            crate::server_laws::outputs(pending),
        ),
        forall|k: int| 0 <= k < pending.len() ==> (#[trigger] pending[k]).len() <= MAX_PAYLOAD,
        crate::protocol_laws::joined(reads) == session.attached(i).clients[i].outbox,
    ensures
        shown(link.orders(arrivals(link.unread, reads))) == crate::protocol_laws::joined(pending)
            + session.initial_output(),
{
    let pieces = crate::protocol::chunked(session.initial_output());
    crate::server_laws::attaching_shows_initial_output(session, i);
    crate::protocol_laws::chunks_keep_data(session.initial_output());
    sent_behind_pending(link.unread, session.clients[i].outbox, pending, pieces);
    let all = pending + pieces;
    assert forall|k: int| 0 <= k < all.len() implies (#[trigger] all[k]).len() <= MAX_PAYLOAD by {
        if k < pending.len() {
            assert(all[k] == pending[k]);
        } else {
            assert(all[k] == pieces[k - pending.len()]);
        }
    }
    output_is_shown(link, reads, all);
    crate::protocol_laws::joined_in_parts(pending, pieces);
}

/// Output that is sent to a terminal comes behind what is pending there: what the terminal
/// has read and not dealt with, and what it has still to get.
pub proof fn sent_behind_pending(
    unread: Seq<u8>,
    outbox: Seq<u8>,
    pending: Seq<Seq<u8>>,
    pieces: Seq<Seq<u8>>,
)
    requires
        unread + outbox == crate::protocol_laws::frames(crate::server_laws::outputs(pending)),
    ensures
        unread + (outbox + crate::protocol_laws::frames(crate::server_laws::outputs(pieces)))
            == crate::protocol_laws::frames(crate::server_laws::outputs(pending + pieces)),
{
    let first = crate::server_laws::outputs(pending);
    let second = crate::server_laws::outputs(pieces);
    assert(crate::server_laws::outputs(pending + pieces) == first + second);
    crate::protocol_laws::frames_in_parts(first, second);
    assert(unread + (outbox + crate::protocol_laws::frames(second)) == unread + outbox
        + crate::protocol_laws::frames(second));
}

/// An attached terminal shows all that the program writes, behind what it was sent before,
/// in order and with nothing else between, however the bytes are cut into reads.
pub proof fn attached_terminal_shows_all_output<S>(
    link: Link,
    session: Session<S>,
    i: int,
    pending: Seq<Seq<u8>>,
    pieces: Seq<Seq<u8>>,
    reads: Seq<Seq<u8>>,
)
    requires
        link.signals.len() == 0,
        !link.socket,
        reads.len() > 0 || crate::protocol_laws::contents(link.unread).messages.len() == 0,
        0 <= i < session.clients.len(),
        session.clients[i].attached,
        link.unread + session.clients[i].outbox == crate::protocol_laws::frames(
            crate::server_laws::outputs(pending),
        ),
        forall|k: int| 0 <= k < pending.len() ==> (#[trigger] pending[k]).len() <= MAX_PAYLOAD,
        forall|k: int| 0 <= k < pieces.len() ==> (#[trigger] pieces[k]).len() <= MAX_PAYLOAD,
        crate::protocol_laws::joined(reads) == session.after_output(pieces).clients[i].outbox,
    ensures
        ({
            let orders = link.orders(arrivals(link.unread, reads));
            &&& shown(orders) == crate::protocol_laws::joined(pending)
                + crate::protocol_laws::joined(pieces)
            &&& !link.leaving ==> unfinished(orders)
        }),
{
    crate::server_laws::all_output_reaches_attached(session, pieces, i);
    sent_behind_pending(link.unread, session.clients[i].outbox, pending, pieces);
    let all = pending + pieces;
    assert forall|k: int| 0 <= k < all.len() implies (#[trigger] all[k]).len() <= MAX_PAYLOAD by {
        if k < pending.len() {
            assert(all[k] == pending[k]);
        } else {
            assert(all[k] == pieces[k - pending.len()]);
        }
    }
    output_is_shown(link, reads, all);
    crate::protocol_laws::joined_in_parts(pending, pieces);
}

/// All bytes that come from the session while this happens.
pub open spec fn received(news: Seq<News>) -> Seq<u8>
    decreases news.len(),
{
    if news.len() == 0 {
        Seq::empty()
    } else {
        let later = received(news.drop_first());
        match news[0] {
            News::Received(Arrival::Data(data)) => data + later,
            _ => later,
        }
    }
}

/// The pieces that are shown while this is done.
pub open spec fn pieces_shown(orders: Seq<Order>) -> Seq<Seq<u8>>
    decreases orders.len(),
{
    if orders.len() == 0 {
        Seq::empty()
    } else {
        let later = pieces_shown(orders.drop_first());
        match orders[0] {
            Order::Show(data) => seq![data] + later,
            _ => later,
        }
    }
}

impl Link {
    /// Whether every complete message that was read is dealt with, or is about to be.
    pub open spec fn up_to_date(self) -> bool {
        self.messages || crate::protocol_laws::contents(self.unread).messages.len() == 0
    }
}

/// One thing that happens shows the next piece of output, or shows nothing and leaves what
/// was read.
spec fn shows_next(buffer: Seq<u8>, next: Link, order: Order) -> bool {
    match order {
        Order::Show(data) => crate::protocol::take_message(buffer) == (
            Ok::<Option<Content>, Seq<char>>(Some(Content::Output(data))),
            next.unread,
        ),
        _ => next.unread == buffer,
    }
}

proof fn next_shows_next(link: Link)
    requires
        !(link.next().1 is Finish),
    ensures
        shows_next(link.unread, link.next().0, link.next().1),
        link.up_to_date() ==> link.next().0.up_to_date(),
{
}

#[verifier::spinoff_prover]
proof fn step_shows_next(link: Link, news: News)
    requires
        !(link.after(news).1 is Finish),
    ensures
        shows_next(
            link.unread + received(seq![news]),
            link.after(news).0,
            link.after(news).1,
        ),
        link.up_to_date() ==> link.after(news).0.up_to_date(),
{
    let one = seq![news];
    assert(one.drop_first() == Seq::<News>::empty());
    assert(received(one.drop_first()) == Seq::<u8>::empty());
    match news {
        News::Polled { input, socket, signals } => {
            let round = Link { socket: socket.spec_any(), input: input.spec_any(), ..link };
            if !signals.spec_any() {
                next_shows_next(round);
            }
        },
        News::Signals(signals) => next_shows_next(Link { signals, ..link }),
        News::Received(Arrival::Data(data)) => {
            assert(data + Seq::<u8>::empty() == data);
            next_shows_next(Link { unread: link.unread + data, messages: true, ..link });
        },
        News::Typed(Arrival::Data(data)) => next_shows_next(
            Link {
                outgoing: crate::relay::input_frames(
                    crate::relay::before_key(data, link.detach_key),
                ),
                leaving: data.contains(link.detach_key),
                ..link
            },
        ),
        News::Size(None) => next_shows_next(link),
        News::Sent(Ok(())) => next_shows_next(link),
        News::Shown(Ok(())) => next_shows_next(link),
        _ => {},
    }
    assert(link.unread + Seq::<u8>::empty() == link.unread);
}

proof fn received_in_turn(unread: Seq<u8>, news: Seq<News>)
    requires
        news.len() > 0,
    ensures
        unread + received(news) == unread + received(seq![news[0]]) + received(news.drop_first()),
{
    let one = seq![news[0]];
    let later = received(news.drop_first());
    assert(one.drop_first() == Seq::<News>::empty());
    assert(received(one.drop_first()) == Seq::<u8>::empty());
    if let News::Received(Arrival::Data(bytes)) = news[0] {
        assert(bytes + Seq::<u8>::empty() == bytes);
        assert(unread + (bytes + later) == unread + bytes + later);
    } else {
        assert(unread + Seq::<u8>::empty() == unread);
    }
}

proof fn one_more_piece(
    buffer: Seq<u8>,
    behind: Seq<u8>,
    rest: Seq<u8>,
    piece: Seq<u8>,
    pieces: Seq<Seq<u8>>,
    left: crate::protocol_laws::Contents,
)
    requires
        crate::protocol::take_message(buffer) == (
            Ok::<Option<Content>, Seq<char>>(Some(Content::Output(piece))),
            rest,
        ),
        crate::protocol_laws::contents(rest + behind) == (crate::protocol_laws::Contents {
            messages: crate::server_laws::outputs(pieces) + left.messages,
            ..left
        }),
    ensures
        crate::protocol_laws::contents(buffer + behind) == (crate::protocol_laws::Contents {
            messages: crate::server_laws::outputs(seq![piece] + pieces) + left.messages,
            ..left
        }),
{
    crate::protocol_laws::later_bytes_change_nothing(buffer, behind);
    let outputs = crate::server_laws::outputs(pieces);
    assert(crate::server_laws::outputs(seq![piece] + pieces) == seq![Content::Output(piece)]
        + outputs);
    assert(seq![Content::Output(piece)] + (outputs + left.messages) == seq![
        Content::Output(piece),
    ] + outputs + left.messages);
}

/// Whatever happens while a terminal is attached, and however what the session sends is
/// cut into reads: until it ends, what is shown is the output that was sent, piece by piece
/// and in order, and every message that was sent and does not show is still there. All of
/// them are shown except while they are being shown.
#[verifier::spinoff_prover]
pub proof fn what_is_sent_is_shown(link: Link, news: Seq<News>)
    requires
        unfinished(link.orders(news)),
    ensures
        ({
            let orders = link.orders(news);
            let after = link.afterwards(news);
            let left = crate::protocol_laws::contents(after.unread);
            &&& shown(orders) == crate::protocol_laws::joined(pieces_shown(orders))
            &&& crate::protocol_laws::contents(link.unread + received(news))
                == (crate::protocol_laws::Contents {
                messages: crate::server_laws::outputs(pieces_shown(orders)) + left.messages,
                ..left
            })
            &&& link.up_to_date() ==> after.up_to_date()
        }),
    decreases news.len(),
{
    let orders = link.orders(news);
    let after = link.afterwards(news);
    let left = crate::protocol_laws::contents(after.unread);
    if news.len() == 0 {
        assert(link.unread + Seq::<u8>::empty() == link.unread);
        assert(crate::server_laws::outputs(pieces_shown(orders)) + left.messages == left.messages);
    } else {
        let (next, order) = link.after(news[0]);
        let later = news.drop_first();
        let then_orders = next.orders(later);
        assert(orders[0] == order);
        assert(orders.drop_first() == then_orders);
        assert forall|j: int| 0 <= j < then_orders.len() implies !(
        (#[trigger] then_orders[j]) is Finish) by {
            assert(then_orders[j] == orders[j + 1]);
        }
        what_is_sent_is_shown(next, later);
        step_shows_next(link, news[0]);
        let behind = received(later);
        let buffer = link.unread + received(seq![news[0]]);
        received_in_turn(link.unread, news);
        if let Order::Show(piece) = order {
            one_more_piece(buffer, behind, next.unread, piece, pieces_shown(then_orders), left);
            assert(pieces_shown(orders).drop_first() == pieces_shown(then_orders));
        }
    }
}

/// Whether what has happened only has a round go on with what is left of it.
pub open spec fn goes_on(news: News) -> bool {
    news == News::Size(None) || news == News::Sent(Ok(())) || news == News::Shown(Ok(()))
}

/// Whether anything at all has come about on a descriptor.
pub open spec fn came_about(events: Events) -> bool {
    events.readable || events.writable || events.hung_up || events.failed || events.invalid
}

/// A terminal that has just attached has nothing left to do.
pub proof fn relays_start_empty(session: Seq<char>, key: u8)
    ensures
        Link::fresh(session, key).quiet(),
        Link::fresh(session, key).session == session,
        Link::fresh(session, key).detach_key == key,
        Link::fresh(session, key).unread.len() == 0,
        Link::fresh(session, key).tracker == crate::modes::Tracker::initial(),
{
}

/// Whatever has come about in a round is noted. Signals are taken in first; without any, what
/// the session sends is received next; and without that, what is typed is read.
pub proof fn rounds_are_begun(link: Link, input: Events, socket: Events, signals: Events)
    requires
        link.signals.len() == 0,
        !link.messages,
        link.outgoing.len() == 0,
        !link.leaving,
    ensures
        ({
            let after = link.after(News::Polled { input, socket, signals });
            let noted = Link { socket: came_about(socket), input: came_about(input), ..link };
            if came_about(signals) {
                after == (noted, Order::TakeSignals)
            } else if came_about(socket) {
                after == (Link { socket: false, ..noted }, Order::Receive)
            } else if came_about(input) {
                after == (Link { input: false, ..noted }, Order::Read)
            } else {
                after == (noted, Order::Poll)
            }
        }),
{
}

/// Signals are dealt with in the order in which they came, before all else. For a change of
/// the window the terminal is asked for its size, also where it is the only signal; any other
/// signal ends it as if someone had left. Without signals the round goes on.
pub proof fn signals_come_first(link: Link, signals: Seq<Signal>, signal: Signal, news: News)
    requires
        goes_on(news),
    ensures
        ({
            let some = seq![signal] + signals;
            let window = (Link { signals, ..link }, Order::AskSize);
            let pending = Link { signals: some, ..link };
            &&& signal == Signal::WindowChange ==> link.after(News::Signals(some)) == window
            &&& signal == Signal::WindowChange ==> pending.after(news) == window
            &&& signal != Signal::WindowChange ==> link.after(News::Signals(some)).1
                == Order::Finish(Ok(Outcome::Detached))
            &&& signal != Signal::WindowChange ==> pending.after(news).1 == Order::Finish(
                Ok(Outcome::Detached),
            )
            &&& link.after(News::Signals(Seq::empty())) == (Link {
                signals: Seq::empty(),
                ..link
            }).after(news)
        }),
{
    let some = seq![signal] + signals;
    assert(some.drop_first() == signals);
    assert(some[0] == signal);
}

/// As many changes of the window as there are `sizes`.
pub open spec fn changes(sizes: Seq<(u16, u16)>) -> Seq<Signal> {
    Seq::new(sizes.len(), |i: int| Signal::WindowChange)
}

/// The terminal answering with each of `sizes`, and each of them being sent.
pub open spec fn answered_with(sizes: Seq<(u16, u16)>) -> Seq<News>
    decreases sizes.len(),
{
    if sizes.len() == 0 {
        Seq::empty()
    } else {
        seq![News::Size(Some(sizes[0])), News::Sent(Ok(()))] + answered_with(sizes.drop_first())
    }
}

/// The terminal being asked for its size, and each of `sizes` being sent to the session.
pub open spec fn asked_and_sent(sizes: Seq<(u16, u16)>) -> Seq<Order>
    decreases sizes.len(),
{
    if sizes.len() == 0 {
        Seq::empty()
    } else {
        seq![
            Order::AskSize,
            Order::Send(Content::Resize { rows: sizes[0].0, cols: sizes[0].1 }.frame()),
        ] + asked_and_sent(sizes.drop_first())
    }
}

proof fn sizes_are_sent(link: Link, sizes: Seq<(u16, u16)>)
    requires
        link.signals == changes(sizes),
    ensures
        link.orders(seq![News::Sent(Ok(()))] + answered_with(sizes)) == asked_and_sent(sizes)
            + seq![(Link { signals: Seq::empty(), ..link }).after(News::Sent(Ok(()))).1],
    decreases sizes.len(),
{
    let sent = News::Sent(Ok(()));
    let news = seq![sent] + answered_with(sizes);
    let last = (Link { signals: Seq::empty(), ..link }).after(sent).1;
    if sizes.len() == 0 {
        assert(news == seq![sent]);
        assert(link.signals == Seq::<Signal>::empty());
        assert(news.drop_first() == Seq::<News>::empty());
        let next = link.after(sent).0;
        assert(next.orders(news.drop_first()) == Seq::<Order>::empty());
        assert(link.orders(news) == seq![last]);
        assert(asked_and_sent(sizes) + seq![last] == seq![last]);
    } else {
        let later = sizes.drop_first();
        let rest = seq![sent] + answered_with(later);
        let next = Link { signals: changes(later), ..link };
        let size = News::Size(Some(sizes[0]));
        let frame = Content::Resize { rows: sizes[0].0, cols: sizes[0].1 }.frame();
        assert(link.signals.drop_first() == changes(later));
        assert(link.signals[0] == Signal::WindowChange);
        assert(link.after(sent) == (next, Order::AskSize));
        assert(news.drop_first() == seq![size] + rest);
        assert((seq![size] + rest).drop_first() == rest);
        assert((seq![size] + rest)[0] == size);
        assert(next.after(size) == (next, Order::Send(frame)));
        sizes_are_sent(next, later);
        assert(Link { signals: Seq::empty(), ..next } == Link { signals: Seq::empty(), ..link });
        assert(next.orders(seq![size] + rest) == seq![Order::Send(frame)] + next.orders(rest));
        assert(link.orders(news) == seq![Order::AskSize] + next.orders(seq![size] + rest));
        assert(link.orders(news) == asked_and_sent(sizes) + seq![last]);
    }
}

/// However often the window of a terminal changes, once or many times, for each change the
/// session is sent the size that the terminal then has, before the round goes on with anything
/// else.
pub proof fn every_change_of_the_window_is_sent(link: Link, sizes: Seq<(u16, u16)>)
    ensures
        link.orders(seq![News::Signals(changes(sizes))] + answered_with(sizes)) == asked_and_sent(
            sizes,
        ) + seq![(Link { signals: Seq::empty(), ..link }).after(News::Sent(Ok(()))).1],
{
    let pending = Link { signals: changes(sizes), ..link };
    let first = seq![News::Signals(changes(sizes))] + answered_with(sizes);
    let same = seq![News::Sent(Ok(()))] + answered_with(sizes);
    sizes_are_sent(pending, sizes);
    assert(first.drop_first() == answered_with(sizes));
    assert(same.drop_first() == answered_with(sizes));
    assert(link.after(News::Signals(changes(sizes))) == pending.after(News::Sent(Ok(()))));
    assert(Link { signals: Seq::empty(), ..pending } == Link { signals: Seq::empty(), ..link });
}

/// A size that the terminal gives is sent to the session and changes nothing.
pub proof fn sizes_are_passed_on(link: Link, rows: u16, cols: u16)
    ensures
        link.after(News::Size(Some((rows, cols)))) == (
            link,
            Order::Send(Content::Resize { rows, cols }.frame()),
        ),
{
}

/// Once the signals are dealt with, a round receives what the session sends, if it is to; once
/// that and the messages are dealt with, it reads what is typed, if it is to; then it sends
/// what is to be sent, from the front; then it ends if the key was typed, and else waits.
pub proof fn rounds_go_on(link: Link, frame: Seq<u8>, rest: Seq<Seq<u8>>, news: News)
    requires
        goes_on(news),
        link.signals.len() == 0,
    ensures
        link.socket ==> link.after(news) == (Link { socket: false, ..link }, Order::Receive),
        !link.socket && !link.messages && link.input ==> link.after(news) == (
            Link { input: false, ..link },
            Order::Read,
        ),
        !link.socket && !link.messages && !link.input && link.outgoing == seq![frame] + rest
            ==> link.after(news) == (Link { outgoing: rest, ..link }, Order::Send(frame)),
        !link.socket && !link.messages && !link.input && link.outgoing.len() == 0 && link.leaving
            ==> link.after(news) == (link, Order::Finish(Ok(Outcome::Detached))),
        !link.socket && !link.messages && !link.input && link.outgoing.len() == 0 && !link.leaving
            ==> link.after(news) == (link, Order::Poll),
{
    if link.outgoing == seq![frame] + rest {
        assert(link.outgoing.drop_first() == rest);
        assert(link.outgoing[0] == frame);
    }
}

/// What the session has sent is dealt with message by message. Output is shown and noted for
/// the modes; the status of the program, that someone had all terminals detached, and an
/// error each end it; and so does any message that a session does not send. Once no message is
/// complete the round goes on, with what has come of the next one kept.
pub proof fn messages_are_heard(
    link: Link,
    message: Content,
    rest: Seq<u8>,
    buffer: Seq<u8>,
    news: News,
)
    requires
        goes_on(news),
        link.signals.len() == 0,
        !link.socket,
        link.messages,
        message.payload().len() <= MAX_PAYLOAD,
    ensures
        ({
            let (next, order) = (Link { unread: message.frame() + rest, ..link }).after(news);
            match message {
                Content::Output(data) => (next, order) == (
                    Link { unread: rest, tracker: link.tracker.scan(data), ..link },
                    Order::Show(data),
                ),
                Content::Exit(code) => order == Order::Finish(Ok(Outcome::Exited(code))),
                Content::Detached => order == Order::Finish(Ok(Outcome::Disconnected)),
                Content::Error(text) => order == Order::Finish(Err(text)),
                Content::Attach { .. }
                | Content::Input(_)
                | Content::Resize { .. }
                | Content::Disconnect { .. } => order == Order::Finish(
                    Err("unexpected message from session"@),
                ),
            }
        }),
        crate::protocol::take_message(buffer).0 == Ok::<Option<Content>, Seq<char>>(None) ==> (
        Link { unread: buffer, ..link }).after(news) == (Link {
            unread: buffer,
            messages: false,
            ..link
        }).after(news),
        crate::protocol::take_message(buffer).0 is Err ==> (Link {
            unread: buffer,
            ..link
        }).after(news).1 == Order::Finish(Err(crate::protocol::take_message(buffer).0->Err_0)),
{
    crate::protocol_laws::frame_reads_back(message, rest);
    crate::protocol_laws::later_bytes_change_nothing(buffer, Seq::empty());
}

/// What is received goes behind what was received before, and its messages are looked at. What
/// is typed is sent up to the detach key, and with the key it is left for good. Where neither
/// has come after all, the next round begins, and nothing is lost.
pub proof fn what_comes_is_taken_in(link: Link, data: Seq<u8>, news: News)
    requires
        goes_on(news),
    ensures
        link.after(News::Received(Arrival::Data(data))) == (Link {
            unread: link.unread + data,
            messages: true,
            ..link
        }).after(news),
        link.after(News::Typed(Arrival::Data(data))) == (Link {
            outgoing: crate::relay::input_frames(
                crate::relay::before_key(data, link.detach_key),
            ),
            leaving: data.contains(link.detach_key),
            ..link
        }).after(news),
        link.after(News::Received(Arrival::Blocked)) == (
            Link { socket: false, input: false, ..link },
            Order::Poll,
        ),
        link.after(News::Typed(Arrival::Blocked)) == (
            Link { socket: false, input: false, ..link },
            Order::Poll,
        ),
{
}

/// It ends as if someone had left when the terminal is gone, and with the reason when anything
/// fails or the session is gone; what the program has set on the terminal is still known.
pub proof fn failures_end_it(link: Link, reason: Seq<char>)
    ensures
        link.after(News::Typed(Arrival::End)) == (link, Order::Finish(Ok(Outcome::Detached))),
        link.after(News::Typed(Arrival::Failed(reason))) == (link, Order::Finish(Err(reason))),
        link.after(News::Sent(Err(reason))) == (link, Order::Finish(Err(reason))),
        link.after(News::Shown(Err(reason))) == (link, Order::Finish(Err(reason))),
        link.after(News::Received(Arrival::End)) == (
            link,
            Order::Finish(Err("session "@ + link.session + ": lost connection"@)),
        ),
        link.after(News::Received(Arrival::Failed(reason))) == (
            link,
            Order::Finish(Err("session "@ + link.session + ": lost connection: "@ + reason)),
        ),
{
}

} // verus!
