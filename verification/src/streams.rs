//! Which symbols each connection subscribes to, and under which address.

use crate::text;
use vstd::prelude::*;
use vstd::string::*;
use vstd::utf8::*;

verus! {

/// How many symbols one connection subscribes to at most.
pub const STREAMS_PER_CONNECTION: usize = 512;

/// Where the exchange offers its streams.
pub const BASE_URL: &'static str = "wss://fstream.binance.com/stream";

/// How long to wait between two connections that are being started, in seconds.
pub const START_DELAY_S: u64 = 1;

/// How many connections so many symbols need.
pub open spec fn connections(symbols: nat) -> nat {
    ((symbols + 511) / 512) as nat
}

/// The symbols of connection `i`: the next 512, or what is left.
pub open spec fn share(symbols: Seq<Seq<char>>, i: int) -> Seq<Seq<char>> {
    symbols.subrange(
        512 * i,
        if 512 * (i + 1) <= symbols.len() {
            512 * (i + 1)
        } else {
            symbols.len() as int
        },
    )
}

/// The symbols of all connections.
pub open spec fn shares(symbols: Seq<Seq<char>>) -> Seq<Seq<Seq<char>>> {
    Seq::new(connections(symbols.len()), |i: int| share(symbols, i))
}

/// The symbols, split up among the connections.
pub fn split_symbols(symbols: &[String]) -> (r: Vec<Vec<String>>)
    ensures
        r.deep_view() == shares(symbols.deep_view()),
{
    let ghost all = symbols.deep_view();
    let mut r: Vec<Vec<String>> = Vec::new();
    let mut at: usize = 0;
    let len: usize = symbols.len();
    while at < len
        invariant
            at <= len == all.len(),
            len == symbols@.len(),
            all == symbols.deep_view(),
            at == len || at == 512 * r@.len(),
            connections(at as nat) == r@.len(),
            r.deep_view() == shares(all).take(r@.len() as int),
        decreases len - at,
    {
        let end: usize = if len - at > STREAMS_PER_CONNECTION {
            at + STREAMS_PER_CONNECTION
        } else {
            len
        };
        let mut chunk: Vec<String> = Vec::new();
        let mut i: usize = at;
        assert(chunk.deep_view() =~= all.subrange(at as int, at as int));
        while i < end
            invariant
                at <= i <= end <= len == all.len(),
                len == symbols@.len(),
                all == symbols.deep_view(),
                chunk.deep_view() == all.subrange(at as int, i as int),
            decreases end - i,
        {
            let ghost before = chunk.deep_view();
            chunk.push(symbols[i].clone());
            assert(chunk.deep_view() =~= before.push(all[i as int]));
            assert(all.subrange(at as int, i + 1) =~= before.push(all[i as int]));
            i = i + 1;
        }
        let ghost before = r.deep_view();
        let ghost k = r@.len() as int;
        assert(chunk.deep_view() == share(all, k));
        r.push(chunk);
        assert(r.deep_view() =~= before.push(share(all, k)));
        assert(shares(all).take(k + 1) =~= shares(all).take(k).push(shares(all)[k]));
        at = end;
    }
    assert(r.deep_view() =~= shares(all));
    r
}

/// The name of a symbol's stream.
pub open spec fn stream(symbol: Seq<char>) -> Seq<char> {
    text::lower(symbol) + "@bookTicker"@
}

/// The names of the streams of some symbols, with slashes between them.
pub open spec fn stream_list(symbols: Seq<Seq<char>>) -> Seq<char>
    decreases symbols.len(),
{
    if symbols.len() == 0 {
        Seq::empty()
    } else if symbols.len() == 1 {
        stream(symbols[0])
    } else {
        stream_list(symbols.drop_last()) + "/"@ + stream(symbols.last())
    }
}

/// The address under which a connection subscribes to some symbols.
pub fn stream_url(symbols: &[String]) -> (r: String)
    ensures
        r@ == BASE_URL@ + "?streams="@ + stream_list(symbols.deep_view()),
{
    let ghost all = symbols.deep_view();
    let mut r: String = String::from_str(BASE_URL);
    r.append("?streams=");
    let ghost head = r@;
    let mut i: usize = 0;
    assert(all.take(0) =~= Seq::empty());
    assert(r@ =~= head + stream_list(all.take(0)));
    while i < symbols.len()
        invariant
            i <= symbols@.len() == all.len(),
            all == symbols.deep_view(),
            r@ == head + stream_list(all.take(i as int)),
        decreases symbols@.len() - i,
    {
        assert(all.take(i + 1).drop_last() =~= all.take(i as int));
        if i > 0 {
            r.append("/");
        }
        r.append(symbols[i].to_lowercase().as_str());
        r.append("@bookTicker");
        assert(r@ =~= head + stream_list(all.take(i + 1)));
        i = i + 1;
    }
    assert(all.take(i as int) =~= all);
    r
}

/// Every symbol is subscribed to on one connection, in the order of the list;
/// no connection is empty or has more than 512 symbols, and only the last one
/// has fewer.
pub proof fn law_shares_cover(symbols: Seq<Seq<char>>)
    ensures
        forall|k: int|
            0 <= k < symbols.len() ==> {
                &&& k / 512 < shares(symbols).len()
                &&& k % 512 < shares(symbols)[k / 512].len()
                &&& #[trigger] symbols[k] == shares(symbols)[k / 512][k % 512]
            },
        forall|i: int|
            0 <= i < shares(symbols).len() ==> {
                &&& 1 <= (#[trigger] shares(symbols)[i]).len() <= STREAMS_PER_CONNECTION
                &&& i < shares(symbols).len() - 1 ==> shares(symbols)[i].len()
                    == STREAMS_PER_CONNECTION
            },
        shares(symbols).flatten() == symbols,
{
    lemma_flat(symbols, shares(symbols).len() as int);
    assert(shares(symbols).take(shares(symbols).len() as int) =~= shares(symbols));
}

proof fn lemma_flat(symbols: Seq<Seq<char>>, n: int)
    requires
        0 <= n <= shares(symbols).len(),
    ensures
        shares(symbols).take(n).flatten() == symbols.take(
            if 512 * n <= symbols.len() {
                512 * n
            } else {
                symbols.len() as int
            },
        ),
    decreases n,
{
    let parts = shares(symbols).take(n);
    if n == 0 {
        assert(parts =~= Seq::empty());
        assert(parts.flatten() =~= symbols.take(0));
    } else {
        lemma_flat(symbols, n - 1);
        assert(parts.drop_last() =~= shares(symbols).take(n - 1));
        parts.lemma_flatten_and_flatten_alt_are_equivalent();
        parts.drop_last().lemma_flatten_and_flatten_alt_are_equivalent();
        assert(parts.flatten() =~= symbols.take(
            if 512 * n <= symbols.len() {
                512 * n
            } else {
                symbols.len() as int
            },
        ));
    }
}

/// An address names one stream for each symbol, in the order of the list: what
/// stands between the slashes is the symbol in lower case and `@bookTicker`.
pub proof fn law_streams_named(symbols: Seq<Seq<char>>)
    requires
        symbols.len() > 0,
        forall|k: int|
            0 <= k < symbols.len() ==> !text::lower(#[trigger] symbols[k]).contains('/'),
    ensures
        ({
            let pieces = text::split_on(stream_list(symbols), '/');
            &&& pieces.len() == symbols.len()
            &&& forall|k: int|
                0 <= k < symbols.len() ==> pieces[k] == text::lower(#[trigger] symbols[k])
                    + "@bookTicker"@
        }),
    decreases symbols.len(),
{
    let last = symbols.last();
    assert(last == symbols[symbols.len() - 1]);
    lemma_stream_is_one_piece(last);
    reveal_strlit("/");
    assert("/"@ =~= seq!['/']);
    let pieces = text::split_on(stream_list(symbols), '/');
    if symbols.len() > 1 {
        let less = symbols.drop_last();
        assert forall|k: int| 0 <= k < less.len() implies !text::lower(
            #[trigger] less[k],
        ).contains('/') by {
            assert(less[k] == symbols[k]);
        }
        law_streams_named(less);
        text::law_split_concat(stream_list(less), stream(last), '/');
        let before = text::split_on(stream_list(less), '/');
        assert(pieces == before + seq![stream(last)]);
        assert forall|k: int| 0 <= k < symbols.len() implies pieces[k] == text::lower(
            #[trigger] symbols[k],
        ) + "@bookTicker"@ by {
            if k < less.len() {
                assert(less[k] == symbols[k]);
                assert(pieces[k] == before[k]);
            }
        }
    }
}

/// The same of ASCII symbols, letter by letter: the `k`-th stream is the `k`-th
/// symbol with `A` to `Z` made `a` to `z`, and `@bookTicker` behind it.
pub proof fn law_ascii_streams_named(symbols: Seq<Seq<char>>)
    requires
        symbols.len() > 0,
        forall|k: int|
            0 <= k < symbols.len() ==> is_ascii_chars(#[trigger] symbols[k])
                && !symbols[k].contains('/'),
    ensures
        ({
            let pieces = text::split_on(stream_list(symbols), '/');
            &&& pieces.len() == symbols.len()
            &&& forall|k: int|
                #![trigger symbols[k]]
                0 <= k < symbols.len() ==> {
                    &&& pieces[k].len() == symbols[k].len() + 11
                    &&& pieces[k].skip(symbols[k].len() as int) == "@bookTicker"@
                    &&& forall|i: int|
                        0 <= i < symbols[k].len() ==> #[trigger] pieces[k][i] == if 'A'
                            <= symbols[k][i] <= 'Z' {
                            (symbols[k][i] as int + 32) as char
                        } else {
                            symbols[k][i]
                        }
                }
        }),
{
    assert forall|k: int| 0 <= k < symbols.len() implies !text::lower(
        #[trigger] symbols[k],
    ).contains('/') by {
        let s = symbols[k];
        assert forall|i: int| 0 <= i < text::lower(s).len() implies text::lower(s)[i] != '/' by {
            assert(s.contains(s[i]));
        }
    }
    law_streams_named(symbols);
    reveal_strlit("@bookTicker");
    let pieces = text::split_on(stream_list(symbols), '/');
    assert forall|k: int| #![trigger symbols[k]] 0 <= k < symbols.len() implies {
        &&& pieces[k].len() == symbols[k].len() + 11
        &&& pieces[k].skip(symbols[k].len() as int) == "@bookTicker"@
    } by {
        assert(pieces[k].skip(symbols[k].len() as int) =~= "@bookTicker"@);
    }
}

/// The address of a connection begins with that of the exchange's combined
/// streams.
pub proof fn law_address_begins()
    ensures
        BASE_URL@ + "?streams="@ == "wss://fstream.binance.com/stream?streams="@,
        STREAMS_PER_CONNECTION == 512,
        START_DELAY_S == 1,
{
    reveal_strlit("wss://fstream.binance.com/stream");
    reveal_strlit("?streams=");
    reveal_strlit("wss://fstream.binance.com/stream?streams=");
    assert(BASE_URL@ + "?streams="@ =~= "wss://fstream.binance.com/stream?streams="@);
}

proof fn lemma_stream_is_one_piece(symbol: Seq<char>)
    requires
        !text::lower(symbol).contains('/'),
    ensures
        text::split_on(stream(symbol), '/') == seq![stream(symbol)],
{
    reveal_strlit("@bookTicker");
    let name = stream(symbol);
    let low = text::lower(symbol);
    assert forall|i: int| 0 <= i < name.len() implies name[i] != '/' by {
        if i < low.len() {
            assert(low.contains(low[i]));
        } else {
            assert(name[i] == "@bookTicker"@[i - low.len()]);
        }
    }
    text::lemma_split_whole(name, '/');
}

} // verus!
