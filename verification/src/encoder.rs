//! Encoder settings and the decision of the packet-draining loop.
use vstd::prelude::*;

use crate::text::{split_on, split_spec, split_terminator_spec, views};
use crate::text_laws::{free_of, join_spec, law_split_undoes_join};

verus! {

/// The key-value pairs of an option string "key=value,key=value": the string is split at
/// every comma (a trailing empty piece is dropped, as `split_terminator` does), and every
/// piece must hold exactly one `=`; otherwise there are none.
pub open spec fn opts_spec(s: Seq<char>) -> Option<Seq<(Seq<char>, Seq<char>)>> {
    let items = split_terminator_spec(s, ',');
    if forall|i: int| 0 <= i < items.len() ==> #[trigger] split_spec(items[i], '=').len() == 2 {
        Some(
            Seq::new(
                items.len(),
                |i: int| (split_spec(items[i], '=')[0], split_spec(items[i], '=')[1]),
            ),
        )
    } else {
        None
    }
}

pub open spec fn pair_views(v: Seq<(String, String)>) -> Seq<(Seq<char>, Seq<char>)> {
    v.map_values(|p: (String, String)| (p.0@, p.1@))
}

/// Reads encoder options written as "key=value,key=value" into their pairs, in order
/// (later pairs override earlier ones when they are set into an option dictionary).
/// Gives `None` when a piece has no `=` or more than one.
pub fn parse_opts(s: String) -> (r: Option<Vec<(String, String)>>)
    ensures
        match r {
            Some(v) => opts_spec(s@) == Some(pair_views(v@)),
            None => opts_spec(s@) is None,
        },
{
    let mut items = split_on(s.as_str(), ',');
    let ghost all = split_spec(s@, ',');
    proof {
        crate::text::lemma_split_nonempty(s@, ',');
    }
    let last = items.len() - 1;
    if items[last].as_str().unicode_len() == 0 {
        items.pop();
        proof {
            assert(views(items@) =~= all.drop_last());
        }
    }
    let ghost its = split_terminator_spec(s@, ',');
    assert(views(items@) == its);
    let mut out: Vec<(String, String)> = Vec::new();
    let mut i: usize = 0;
    while i < items.len()
        invariant
            views(items@) == its,
            its == split_terminator_spec(s@, ','),
            i <= items@.len(),
            out@.len() == i,
            forall|j: int| 0 <= j < i ==> #[trigger] split_spec(its[j], '=').len() == 2,
            forall|j: int|
                0 <= j < i ==> #[trigger] pair_views(out@)[j] == (
                    split_spec(its[j], '=')[0],
                    split_spec(its[j], '=')[1],
                ),
        decreases items@.len() - i,
    {
        let parts = split_on(items[i].as_str(), '=');
        proof {
            assert(its[i as int] == items@[i as int]@);
        }
        if parts.len() != 2 {
            proof {
                assert(split_spec(its[i as int], '=').len() != 2);
            }
            return None;
        }
        let k = parts[0].clone();
        let v = parts[1].clone();
        let ghost prev = out@;
        out.push((k, v));
        proof {
            assert forall|j: int| 0 <= j < i + 1 implies #[trigger] pair_views(out@)[j] == (
                split_spec(its[j], '=')[0],
                split_spec(its[j], '=')[1],
            ) by {
                if j < i {
                    assert(out@[j] == prev[j]);
                    assert(pair_views(prev)[j] == (prev[j].0@, prev[j].1@));
                } else {
                    assert(views(parts@)[0] == parts@[0]@);
                    assert(views(parts@)[1] == parts@[1]@);
                }
            }
        }
        i += 1;
    }
    proof {
        assert(pair_views(out@) =~= opts_spec(s@)->0);
    }
    Some(out)
}

/// The option string that lists `pairs` as "key=value", separated by commas.
pub open spec fn render_opts(pairs: Seq<(Seq<char>, Seq<char>)>) -> Seq<char> {
    join_spec(pairs.map_values(|p: (Seq<char>, Seq<char>)| p.0 + seq!['='] + p.1), ',')
}

/// Reading options gives back the pairs that were written, when no key or value holds a
/// comma or an equals sign.
pub proof fn law_parse_opts_undoes_render(pairs: Seq<(Seq<char>, Seq<char>)>)
    requires
        forall|i: int|
            0 <= i < pairs.len() ==> free_of((#[trigger] pairs[i]).0, ',') && free_of(
                pairs[i].0,
                '=',
            ) && free_of(pairs[i].1, ',') && free_of(pairs[i].1, '='),
    ensures
        opts_spec(render_opts(pairs)) == Some(pairs),
{
    let items = pairs.map_values(|p: (Seq<char>, Seq<char>)| p.0 + seq!['='] + p.1);
    let s = render_opts(pairs);
    if pairs.len() == 0 {
        assert(s =~= Seq::<char>::empty());
        assert(split_terminator_spec(s, ',') =~= Seq::<Seq<char>>::empty());
        assert(opts_spec(s)->0 =~= pairs);
    } else {
        assert forall|i: int| 0 <= i < items.len() implies free_of(#[trigger] items[i], ',') by {
            let it = items[i];
            assert(it == pairs[i].0 + seq!['='] + pairs[i].1);
            assert forall|j: int| 0 <= j < it.len() implies it[j] != ',' by {
                if j < pairs[i].0.len() {
                    assert(it[j] == pairs[i].0[j]);
                } else if j > pairs[i].0.len() {
                    assert(it[j] == pairs[i].1[j - pairs[i].0.len() - 1]);
                }
            }
        }
        law_split_undoes_join(items, ',');
        let last = items[items.len() - 1];
        assert(last.len() >= 1);
        assert(split_terminator_spec(s, ',') == items);
        assert forall|i: int| 0 <= i < items.len() implies #[trigger] split_spec(items[i], '=')
            == seq![pairs[i].0, pairs[i].1] by {
            let kv = seq![pairs[i].0, pairs[i].1];
            assert(free_of(kv[0], '=') && free_of(kv[1], '='));
            assert forall|k: int| 0 <= k < kv.len() implies free_of(#[trigger] kv[k], '=') by {}
            law_split_undoes_join(kv, '=');
            assert(kv.drop_last() =~= seq![pairs[i].0]);
            assert(join_spec(seq![pairs[i].0], '=') == pairs[i].0);
            assert(join_spec(kv, '=') == join_spec(kv.drop_last(), '=') + seq!['='] + kv.last());
            assert(items[i] == pairs[i].0 + seq!['='] + pairs[i].1);
        }
        assert(opts_spec(s)->0 =~= pairs);
    }
}

/// What the encoder's answer to a packet request means.
#[derive(Clone, Copy, Debug, PartialEq, Eq)]
pub enum ReceiveOutcome {
    /// A packet came out: write it and ask again.
    Packet,
    /// The encoder needs more input, or has no more output: stop asking.
    Drained,
    /// Encoding failed.
    Failed,
}

/// Reads the return code of a packet request: the codes for "try again" and "end of
/// file" mean the encoder is drained, any other negative code is a failure, and a code
/// of zero or more means a packet came out.
pub fn classify_receive(ret: i32, eagain: i32, eof: i32) -> (r: ReceiveOutcome)
    ensures
        r == (if ret == eagain || ret == eof {
            ReceiveOutcome::Drained
        } else if ret < 0 {
            ReceiveOutcome::Failed
        } else {
            ReceiveOutcome::Packet
        }),
{
    if ret == eagain || ret == eof {
        ReceiveOutcome::Drained
    } else if ret < 0 {
        ReceiveOutcome::Failed
    } else {
        ReceiveOutcome::Packet
    }
}

} // verus!
