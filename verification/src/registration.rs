//! The registration control-plane protocol: one line, one command.
//!
//! Grammar (whitespace-tokenized, keyword case-insensitive in ASCII):
//! `REGISTER <id> <protocol>://<address> [events...]`,
//! `SUBSCRIBE <id> <event>`, `UNSUBSCRIBE <id> <event>`, `LIST`,
//! `QUIT`.  Every command is processed against the shared producer
//! pool; the caller writes the returned description after `OK:` and an
//! error's description after `ERROR:`.

use vstd::prelude::*;
use vstd::string::*;

use crate::client::{ClientFactory, TcpClient};
use crate::config::ProtocolType;
use crate::errors::{not_found_msg, TransportError};
use crate::pool::ProducerPool;
use crate::strutil::{
    ascii_eq_ignore_case, eq_ignore_case, find_sub, find_sub_str, tokenize, tokenize_line,
};

verus! {

/// The decimal digit `d` as a character; callers keep `d` within 0..10.
pub open spec fn digit_char(d: int) -> char {
    if d == 0 {
        '0'
    } else if d == 1 {
        '1'
    } else if d == 2 {
        '2'
    } else if d == 3 {
        '3'
    } else if d == 4 {
        '4'
    } else if d == 5 {
        '5'
    } else if d == 6 {
        '6'
    } else if d == 7 {
        '7'
    } else if d == 8 {
        '8'
    } else {
        '9'
    }
}

/// The decimal rendering of `n`.
pub open spec fn dec_str(n: int) -> Seq<char>
    decreases n,
{
    if n < 10 {
        seq![digit_char(n)]
    } else {
        dec_str(n / 10) + seq![digit_char(n % 10)]
    }
}

/// One decimal digit as wire text.
fn digit_str(d: usize) -> (r: &'static str)
    requires
        d < 10,
    ensures
        r@ == seq![digit_char(d as int)],
{
    proof {
        reveal_strlit("0");
        reveal_strlit("1");
        reveal_strlit("2");
        reveal_strlit("3");
        reveal_strlit("4");
        reveal_strlit("5");
        reveal_strlit("6");
        reveal_strlit("7");
        reveal_strlit("8");
        reveal_strlit("9");
    }
    if d == 0 {
        "0"
    } else if d == 1 {
        "1"
    } else if d == 2 {
        "2"
    } else if d == 3 {
        "3"
    } else if d == 4 {
        "4"
    } else if d == 5 {
        "5"
    } else if d == 6 {
        "6"
    } else if d == 7 {
        "7"
    } else if d == 8 {
        "8"
    } else {
        "9"
    }
}

/// Renders `n` in decimal.
fn render_usize(n: usize) -> (r: String)
    ensures
        r@ == dec_str(n as int),
    decreases n,
{
    if n < 10 {
        digit_str(n).to_owned()
    } else {
        let mut s = render_usize(n / 10);
        s.append(digit_str(n % 10));
        s
    }
}

/// One name inside a rendered list: the name between double quotes.
pub open spec fn quote_item(x: Seq<char>) -> Seq<char> {
    seq!['"'] + x + seq!['"']
}

/// The comma-separated quoted names of `l`.
pub open spec fn render_items(l: Seq<Seq<char>>) -> Seq<char>
    decreases l.len(),
{
    if l.len() == 0 {
        Seq::empty()
    } else if l.len() == 1 {
        quote_item(l[0])
    } else {
        quote_item(l[0]) + seq![',', ' '] + render_items(l.drop_first())
    }
}

/// A list of names as response text: `["a", "b"]`.
pub open spec fn render_str_list(l: Seq<Seq<char>>) -> Seq<char> {
    seq!['['] + render_items(l) + seq![']']
}

/// The views of a sequence of strings.
pub open spec fn str_views(l: Seq<String>) -> Seq<Seq<char>> {
    l.map_values(|x: String| x@)
}

/// Rendering distributes over appending one name.
proof fn lemma_render_items_snoc(l: Seq<Seq<char>>, x: Seq<char>)
    ensures
        render_items(l.push(x)) == if l.len() == 0 {
            quote_item(x)
        } else {
            render_items(l) + seq![',', ' '] + quote_item(x)
        },
    decreases l.len(),
{
    if l.len() == 0 {
        assert(l.push(x)[0] == x);
        assert(render_items(l.push(x)) =~= quote_item(x));
    } else if l.len() == 1 {
        assert(l.push(x)[0] == l[0]);
        assert(l.push(x).drop_first() =~= seq![x]);
        assert(render_items(seq![x]) == quote_item(x));
        assert(render_items(l.push(x)) =~= render_items(l) + seq![',', ' '] + quote_item(x));
    } else {
        assert(l.push(x)[0] == l[0]);
        assert(l.push(x).drop_first() =~= l.drop_first().push(x));
        lemma_render_items_snoc(l.drop_first(), x);
        assert(render_items(l.push(x)) =~= render_items(l) + seq![',', ' '] + quote_item(x));
    }
}

/// Renders the names of `items` from position `from` on, quoted and
/// bracketed.
fn render_list(items: &Vec<String>, from: usize) -> (r: String)
    requires
        from <= items@.len(),
    ensures
        r@ == render_str_list(str_views(items@).skip(from as int)),
{
    proof {
        reveal_strlit("[");
        reveal_strlit("]");
        reveal_strlit("\"");
        reveal_strlit(", ");
        assert("["@ =~= seq!['[']);
        assert("]"@ =~= seq![']']);
        assert("\""@ =~= seq!['"']);
        assert(", "@ =~= seq![',', ' ']);
    }
    let n = items.len();
    let mut out = String::from_str("[");
    let mut k: usize = from;
    proof {
        assert(str_views(items@).skip(from as int).subrange(0, 0) =~= Seq::<Seq<char>>::empty());
        assert(out@ =~= seq!['['] + render_items(Seq::<Seq<char>>::empty()));
    }
    while k < n
        invariant
            from <= k <= n,
            n == items@.len(),
            out@ == seq!['['] + render_items(str_views(items@).skip(from as int).subrange(0, k - from)),
        decreases n - k,
    {
        proof {
            reveal_strlit("\"");
            reveal_strlit(", ");
        }
        if k > from {
            out.append(", ");
        }
        out.append("\"");
        out.append(items[k].as_str());
        out.append("\"");
        proof {
            let l = str_views(items@).skip(from as int);
            let pre = l.subrange(0, k - from);
            assert(l.subrange(0, k - from + 1) =~= pre.push(l[k - from]));
            assert(l[k - from] == items@[k as int]@);
            lemma_render_items_snoc(pre, l[k - from]);
            assert(out@ =~= seq!['['] + render_items(l.subrange(0, k - from + 1)));
        }
        k = k + 1;
    }
    out.append("]");
    proof {
        let l = str_views(items@).skip(from as int);
        assert(l.subrange(0, l.len() as int) =~= l);
        assert(out@ =~= render_str_list(l));
    }
    out
}

/// Concatenates two pieces of wire text.
fn concat2(a: &str, b: &str) -> (r: String)
    ensures
        r@ == a@ + b@,
{
    let mut out = String::from_str(a);
    out.append(b);
    out
}

/// Concatenates three pieces of wire text.
fn concat3(a: &str, b: &str, c: &str) -> (r: String)
    ensures
        r@ == a@ + b@ + c@,
{
    let mut out = String::from_str(a);
    out.append(b);
    out.append(c);
    proof {
        assert(out@ =~= a@ + b@ + c@);
    }
    out
}

/// Concatenates five pieces of wire text.
fn concat5(a: &str, b: &str, c: &str, d: &str, e: &str) -> (r: String)
    ensures
        r@ == a@ + b@ + c@ + d@ + e@,
{
    let mut out = String::from_str(a);
    out.append(b);
    out.append(c);
    out.append(d);
    out.append(e);
    proof {
        assert(out@ =~= a@ + b@ + c@ + d@ + e@);
    }
    out
}

/// The target of a `REGISTER` URI: the text before the first `://` and
/// the text after it, or nothing when no `://` occurs.
pub open spec fn split_uri(u: Seq<char>) -> Option<(Seq<char>, Seq<char>)> {
    match find_sub(u, "://"@) {
        Some(k) => Some((u.subrange(0, k), u.subrange(k + 3, u.len() as int))),
        None => None,
    }
}

/// The response to a successful `REGISTER`.
pub open spec fn register_response(id: Seq<char>, events: Seq<Seq<char>>) -> Seq<char> {
    if events.len() == 0 {
        "Producer '"@ + id + "' registered"@
    } else {
        "Producer '"@ + id + "' registered with events: "@ + render_str_list(events)
    }
}


/// One producer's `LIST` line: its id, target address and subscribed
/// events.
pub open spec fn list_producer_line(pool: ProducerPool<TcpClient>, id: Seq<char>) -> Seq<char> {
    "  "@ + id + " -> "@ + pool.client_of(id).address_spec() + " (events: "@ + render_str_list(
        pool.producer_events(id),
    ) + ")\n"@
}

/// The per-producer `LIST` lines for the ids `ids`, in order.
pub open spec fn list_lines(pool: ProducerPool<TcpClient>, ids: Seq<Seq<char>>) -> Seq<char>
    decreases ids.len(),
{
    if ids.len() == 0 {
        Seq::empty()
    } else {
        list_producer_line(pool, ids[0]) + list_lines(pool, ids.drop_first())
    }
}

/// [`list_lines`] distributes over appending one id.
proof fn lemma_list_lines_snoc(pool: ProducerPool<TcpClient>, ids: Seq<Seq<char>>, x: Seq<char>)
    ensures
        list_lines(pool, ids.push(x)) == list_lines(pool, ids) + list_producer_line(pool, x),
    decreases ids.len(),
{
    if ids.len() == 0 {
        assert(ids.push(x)[0] == x);
        assert(ids.push(x).drop_first() =~= Seq::<Seq<char>>::empty());
        assert(list_lines(pool, ids.push(x)) == list_producer_line(pool, x) + list_lines(
            pool,
            ids.push(x).drop_first(),
        ));
        assert(list_lines(pool, Seq::<Seq<char>>::empty()) == Seq::<char>::empty());
        assert(list_lines(pool, ids.push(x)) =~= list_lines(pool, ids) + list_producer_line(
            pool,
            x,
        ));
    } else {
        assert(ids.push(x)[0] == ids[0]);
        assert(ids.push(x).drop_first() =~= ids.drop_first().push(x));
        lemma_list_lines_snoc(pool, ids.drop_first(), x);
        assert(list_lines(pool, ids.push(x)) =~= list_lines(pool, ids) + list_producer_line(
            pool,
            x,
        ));
    }
}

/// The full `LIST` response: the producer count, one line per
/// registered producer in table order, and the events that currently
/// have subscribers.
pub open spec fn list_response(pool: ProducerPool<TcpClient>) -> Seq<char> {
    "Producers: "@ + dec_str(pool.count_spec() as int) + "\n"@ + list_lines(pool, pool.ids_seq())
        + "Events: "@ + render_str_list(pool.events_with_subscribers())
}

/// Renders the whole registry for `LIST`.
fn list_command(pool: &ProducerPool<TcpClient>) -> (r: String)
    requires
        pool.wf(),
    ensures
        r@ == list_response(*pool),
{
    let count = pool.count();
    let num = render_usize(count);
    let mut info = concat3("Producers: ", num.as_str(), "\n");
    let ghost header = info@;
    let ids = pool.get_producer_ids();
    let n = ids.len();
    let mut i: usize = 0;
    proof {
        assert(pool.ids_seq().subrange(0, 0) =~= Seq::<Seq<char>>::empty());
        assert(info@ =~= header + list_lines(*pool, pool.ids_seq().subrange(0, 0)));
        assert forall|m: int| 0 <= m < n implies pool.has_producer_spec(
            #[trigger] ids@[m]@,
        ) by {
            let id2 = ids@[m]@;
            assert(0 <= m < ids@.len() && ids@[m]@ == id2);
            assert(exists|j: int| 0 <= j < ids@.len() && ids@[j]@ == id2);
        }
    }
    while i < n
        invariant
            0 <= i <= n,
            pool.wf(),
            n == ids@.len(),
            n == pool.ids_seq().len(),
            forall|m: int| 0 <= m < n ==> ids@[m]@ == pool.ids_seq()[m],
            forall|m: int| 0 <= m < n ==> pool.has_producer_spec(#[trigger] ids@[m]@),
            info@ == header + list_lines(*pool, pool.ids_seq().subrange(0, i as int)),
        decreases n - i,
    {
        let found = pool.get_producer(ids[i].as_str());
        match found {
            Some(p) => {
                let ghost before = info@;
                info.append("  ");
                info.append(ids[i].as_str());
                info.append(" -> ");
                info.append(p.client().address());
                info.append(" (events: ");
                let evs = p.subscribed_events();
                let lst = render_list(&evs, 0);
                info.append(lst.as_str());
                info.append(")\n");
                proof {
                    let id = pool.ids_seq()[i as int];
                    assert(str_views(evs@).skip(0) =~= p.event_views());
                    assert(lst@ == render_str_list(pool.producer_events(id)));
                    assert(info@ =~= before + list_producer_line(*pool, id));
                    lemma_list_lines_snoc(*pool, pool.ids_seq().subrange(0, i as int), id);
                    assert(pool.ids_seq().subrange(0, i + 1 as int) =~= pool.ids_seq().subrange(
                        0,
                        i as int,
                    ).push(id));
                    assert(info@ =~= header + list_lines(
                        *pool,
                        pool.ids_seq().subrange(0, i + 1 as int),
                    ));
                }
            },
            None => {
                proof {
                    assert(false);
                }
            },
        }
        i = i + 1;
    }
    let events = pool.get_subscribed_events();
    info.append("Events: ");
    let lst2 = render_list(&events, 0);
    info.append(lst2.as_str());
    proof {
        assert(pool.ids_seq().subrange(0, n as int) =~= pool.ids_seq());
        assert(str_views(events@).skip(0) =~= pool.events_with_subscribers());
        assert(lst2@ == render_str_list(pool.events_with_subscribers()));
        assert(info@ =~= list_response(*pool));
    }
    info
}

/// Processes one control-plane command line against the shared pool.
///
/// `REGISTER` creates or replaces a producer and subscribes it to the
/// listed events; `SUBSCRIBE` and `UNSUBSCRIBE` change one
/// subscription; `LIST` reports the registry; `QUIT` acknowledges; an
/// unknown keyword, a malformed URI, an unsupported protocol or a wrong
/// argument count is an error.  No failing command changes the pool.
/// The caller writes a returned description after `OK:` and an error's
/// description after `ERROR:`.
#[verifier::rlimit(100)]
pub fn process_registration_command(command: &str, pool: &mut ProducerPool<TcpClient>) -> (r:
    Result<String, TransportError>)
    requires
        old(pool).wf(),
    ensures
        final(pool).wf(),
        ({
            let toks = tokenize(command@);
            &&& (toks.len() == 0 ==> (r matches Err(TransportError::InvalidInput(m)) && m@
                == "Empty command"@ && *final(pool) == *old(pool)))
            &&& ((toks.len() > 0 && ascii_eq_ignore_case(toks[0], "REGISTER"@)) ==> ({
                &&& (toks.len() < 3 ==> (r matches Err(TransportError::InvalidInput(m)) && m@
                    == "Usage: REGISTER <id> <protocol>://<address> [events...]"@ && *final(pool)
                    == *old(pool)))
                &&& (toks.len() >= 3 ==> match split_uri(toks[2]) {
                    None => r matches Err(TransportError::InvalidInput(m)) && m@
                        == "Invalid URI format. Expected: protocol://address"@ && *final(pool)
                        == *old(pool),
                    Some(pa) => if ascii_eq_ignore_case(pa.0, "TCP"@) {
                        &&& r matches Ok(m) && m@ == register_response(toks[1], toks.skip(3))
                        &&& final(pool).client_of(toks[1]).address_spec() == pa.1
                        &&& forall|id2: Seq<char>|
                            #[trigger] final(pool).has_producer_spec(id2) <==> (old(
                                pool,
                            ).has_producer_spec(id2) || id2 == toks[1])
                        &&& forall|e: Seq<char>|
                            #[trigger] final(pool).subscribed_spec(toks[1], e) <==> (exists|
                                m2: int,
                            | 3 <= m2 < toks.len() && toks[m2] == e)
                        &&& forall|id2: Seq<char>, e: Seq<char>|
                            id2 != toks[1] ==> (#[trigger] final(pool).subscribed_spec(id2, e)
                                <==> old(pool).subscribed_spec(id2, e))
                    } else {
                        r matches Err(TransportError::InvalidInput(m)) && m@
                            == "Unsupported protocol: "@ + pa.0 && *final(pool) == *old(pool)
                    },
                })
            }))
            &&& ((toks.len() > 0 && ascii_eq_ignore_case(toks[0], "SUBSCRIBE"@)) ==> ({
                &&& (toks.len() != 3 ==> (r matches Err(TransportError::InvalidInput(m)) && m@
                    == "Usage: SUBSCRIBE <id> <event_name>"@ && *final(pool) == *old(pool)))
                &&& ((toks.len() == 3 && !old(pool).has_producer_spec(toks[1])) ==> (r matches Err(
                    TransportError::NotFound(m),
                ) && m@ == not_found_msg(toks[1]) && *final(pool) == *old(pool)))
                &&& ((toks.len() == 3 && old(pool).has_producer_spec(toks[1])) ==> ({
                    &&& r matches Ok(m) && m@ == "Producer '"@ + toks[1]
                        + "' subscribed to event '"@ + toks[2] + "'"@
                    &&& forall|id2: Seq<char>, e: Seq<char>|
                        #[trigger] final(pool).subscribed_spec(id2, e) <==> (old(
                            pool,
                        ).subscribed_spec(id2, e) || (id2 == toks[1] && e == toks[2]))
                    &&& forall|id2: Seq<char>|
                        #[trigger] final(pool).has_producer_spec(id2) <==> old(
                            pool,
                        ).has_producer_spec(id2)
                }))
            }))
            &&& ((toks.len() > 0 && ascii_eq_ignore_case(toks[0], "UNSUBSCRIBE"@)) ==> ({
                &&& (toks.len() != 3 ==> (r matches Err(TransportError::InvalidInput(m)) && m@
                    == "Usage: UNSUBSCRIBE <id> <event_name>"@ && *final(pool) == *old(pool)))
                &&& ((toks.len() == 3 && !old(pool).has_producer_spec(toks[1])) ==> (r matches Err(
                    TransportError::NotFound(m),
                ) && m@ == not_found_msg(toks[1]) && *final(pool) == *old(pool)))
                &&& ((toks.len() == 3 && old(pool).has_producer_spec(toks[1])) ==> ({
                    &&& r matches Ok(m) && m@ == "Producer '"@ + toks[1]
                        + "' unsubscribed from event '"@ + toks[2] + "'"@
                    &&& forall|id2: Seq<char>, e: Seq<char>|
                        #[trigger] final(pool).subscribed_spec(id2, e) <==> (old(
                            pool,
                        ).subscribed_spec(id2, e) && !(id2 == toks[1] && e == toks[2]))
                    &&& forall|id2: Seq<char>|
                        #[trigger] final(pool).has_producer_spec(id2) <==> old(
                            pool,
                        ).has_producer_spec(id2)
                }))
            }))
            &&& ((toks.len() > 0 && ascii_eq_ignore_case(toks[0], "LIST"@)) ==> (r matches Ok(m)
                && m@ == list_response(*old(pool)) && *final(pool) == *old(pool)))
            &&& ((toks.len() > 0 && ascii_eq_ignore_case(toks[0], "QUIT"@)) ==> (r matches Ok(m)
                && m@ == "Goodbye"@ && *final(pool) == *old(pool)))
            &&& ((toks.len() > 0 && !ascii_eq_ignore_case(toks[0], "REGISTER"@)
                && !ascii_eq_ignore_case(toks[0], "SUBSCRIBE"@) && !ascii_eq_ignore_case(
                toks[0],
                "UNSUBSCRIBE"@,
            ) && !ascii_eq_ignore_case(toks[0], "LIST"@) && !ascii_eq_ignore_case(
                toks[0],
                "QUIT"@,
            )) ==> (r matches Err(TransportError::InvalidInput(m)) && m@ == "Unknown command: "@
                + toks[0] && *final(pool) == *old(pool)))
        }),
{
    proof {
        reveal_strlit("REGISTER");
        reveal_strlit("SUBSCRIBE");
        reveal_strlit("UNSUBSCRIBE");
        reveal_strlit("LIST");
        reveal_strlit("QUIT");
        reveal_strlit("://");
    }
    let tokens = tokenize_line(command);
    if tokens.len() == 0 {
        return Err(TransportError::InvalidInput(String::from_str("Empty command")));
    }
    proof {
        let t0 = tokenize(command@)[0];
        // The keywords are mutually exclusive, also ignoring case.
        if ascii_eq_ignore_case(t0, "LIST"@) && ascii_eq_ignore_case(t0, "QUIT"@) {
            assert(crate::strutil::upper_char(t0[0]) == crate::strutil::upper_char('L'));
            assert(crate::strutil::upper_char(t0[0]) == crate::strutil::upper_char('Q'));
        }
    }
    let is_reg = eq_ignore_case(tokens[0].as_str(), "REGISTER");
    let is_sub = eq_ignore_case(tokens[0].as_str(), "SUBSCRIBE");
    let is_unsub = eq_ignore_case(tokens[0].as_str(), "UNSUBSCRIBE");
    let is_list = eq_ignore_case(tokens[0].as_str(), "LIST");
    let is_quit = eq_ignore_case(tokens[0].as_str(), "QUIT");
    if is_reg {
        if tokens.len() < 3 {
            return Err(
                TransportError::InvalidInput(
                    String::from_str("Usage: REGISTER <id> <protocol>://<address> [events...]"),
                ),
            );
        }
        let uri = tokens[2].as_str();
        let sep = find_sub_str(uri, "://");
        match sep {
            None => Err(
                TransportError::InvalidInput(
                    String::from_str("Invalid URI format. Expected: protocol://address"),
                ),
            ),
            Some(k) => {
                let ulen = uri.unicode_len();
                proof {
                    crate::strutil::lemma_find_sub(uri@, "://"@);
                }
                let proto = uri.substring_char(0, k);
                let address = uri.substring_char(k + 3, ulen);
                let known = ProtocolType::from_str(proto);
                if known.is_none() {
                    return Err(
                        TransportError::InvalidInput(concat2("Unsupported protocol: ", proto)),
                    );
                }
                let client = ClientFactory::create_tcp_client(address.to_owned());
                let ghost cl = client;
                let _ = pool.add_producer(tokens[1].clone(), client);
                let ghost after_add = *pool;
                let n = tokens.len();
                let mut k2: usize = 3;
                while k2 < n
                    invariant
                        3 <= k2 <= n,
                        n == tokens@.len(),
                        n == tokenize(command@).len(),
                        forall|m2: int|
                            0 <= m2 < n ==> tokens@[m2]@ == #[trigger] tokenize(command@)[m2],
                        pool.wf(),
                        pool.has_producer_spec(tokens@[1]@),
                        forall|id2: Seq<char>|
                            #[trigger] pool.has_producer_spec(id2) <==> (old(
                                pool,
                            ).has_producer_spec(id2) || id2 == tokens@[1]@),
                        forall|e: Seq<char>|
                            #[trigger] pool.subscribed_spec(tokens@[1]@, e) <==> (exists|m2: int|
                                3 <= m2 < k2 && tokenize(command@)[m2] == e),
                        forall|id2: Seq<char>, e: Seq<char>|
                            id2 != tokens@[1]@ ==> (#[trigger] pool.subscribed_spec(id2, e) <==>
                                old(pool).subscribed_spec(id2, e)),
                        pool.client_of(tokens@[1]@) == cl,
                    decreases n - k2,
                {
                    let res = pool.subscribe_producer_to_event(
                        tokens[1].as_str(),
                        tokens[k2].as_str(),
                    );
                    proof {
                        assert(res is Ok);
                        assert forall|e: Seq<char>| #[trigger] pool.subscribed_spec(
                            tokens@[1]@,
                            e,
                        ) implies (exists|m2: int|
                            3 <= m2 < k2 + 1 && tokenize(command@)[m2] == e) by {
                            if e == tokens@[k2 as int]@ {
                                assert(tokenize(command@)[k2 as int] == e);
                            } else {
                                let m2 = choose|m2: int|
                                    3 <= m2 < k2 && tokenize(command@)[m2] == e;
                                assert(3 <= m2 < k2 + 1 && tokenize(command@)[m2] == e);
                            }
                        }
                    }
                    k2 = k2 + 1;
                }
                if tokens.len() == 3 {
                    let resp = concat3("Producer '", tokens[1].as_str(), "' registered");
                    proof {
                        assert(tokenize(command@).skip(3).len() == 0);
                        assert(resp@ == register_response(
                            tokenize(command@)[1],
                            tokenize(command@).skip(3),
                        ));
                    }
                    Ok(resp)
                } else {
                    let mut resp = concat3(
                        "Producer '",
                        tokens[1].as_str(),
                        "' registered with events: ",
                    );
                    let lst = render_list(&tokens, 3);
                    resp.append(lst.as_str());
                    proof {
                        assert(str_views(tokens@).skip(3) =~= tokenize(command@).skip(3));
                        assert(resp@ =~= register_response(
                            tokenize(command@)[1],
                            tokenize(command@).skip(3),
                        ));
                    }
                    Ok(resp)
                }
            },
        }
    } else if is_sub {
        if tokens.len() != 3 {
            return Err(
                TransportError::InvalidInput(String::from_str("Usage: SUBSCRIBE <id> <event_name>")),
            );
        }
        let res = pool.subscribe_producer_to_event(tokens[1].as_str(), tokens[2].as_str());
        match res {
            Ok(_) => {
                let resp = concat5(
                    "Producer '",
                    tokens[1].as_str(),
                    "' subscribed to event '",
                    tokens[2].as_str(),
                    "'",
                );
                Ok(resp)
            },
            Err(e) => Err(e),
        }
    } else if is_unsub {
        if tokens.len() != 3 {
            return Err(
                TransportError::InvalidInput(
                    String::from_str("Usage: UNSUBSCRIBE <id> <event_name>"),
                ),
            );
        }
        let res = pool.unsubscribe_producer_from_event(tokens[1].as_str(), tokens[2].as_str());
        match res {
            Ok(_) => {
                let resp = concat5(
                    "Producer '",
                    tokens[1].as_str(),
                    "' unsubscribed from event '",
                    tokens[2].as_str(),
                    "'",
                );
                Ok(resp)
            },
            Err(e) => Err(e),
        }
    } else if is_list {
        let info = list_command(pool);
        Ok(info)
    } else if is_quit {
        Ok(String::from_str("Goodbye"))
    } else {
        Err(TransportError::InvalidInput(concat2("Unknown command: ", tokens[0].as_str())))
    }
}


/// Renders a command outcome as the response line: `OK:` plus the
/// description on success, `ERROR:` plus the error's message on
/// failure.
pub fn format_response(outcome: &Result<String, TransportError>) -> (r: String)
    ensures
        match outcome {
            Ok(m) => r@ == "OK:"@ + m@,
            Err(e) => r@ == "ERROR:"@ + e.spec_message(),
        },
{
    match outcome {
        Ok(m) => concat2("OK:", m.as_str()),
        Err(e) => {
            let msg = e.message();
            concat2("ERROR:", msg.as_str())
        },
    }
}

/// Whether a command line is `QUIT`, ignoring ASCII letter case; the
/// connection closes after acknowledging it.
pub fn is_quit_command(command: &str) -> (r: bool)
    ensures
        r == ascii_eq_ignore_case(command@, "QUIT"@),
{
    eq_ignore_case(command, "QUIT")
}

} // verus!
