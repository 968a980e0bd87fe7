//! Addressing of note ports and channels by incoming note events.
//!
//! A note event names a port and a channel, each either one specific index
//! or all of them; it reaches every channel it names on every port it names.
use vstd::prelude::*;

verus! {

/// Which values of an index an event addresses: all of them, or one.
#[derive(Debug, Copy, Clone, PartialEq, Eq)]
pub enum Match {
    /// Every value.
    All,
    /// One specific value.
    Specific(u16),
}

/// The values that `m` addresses among `num_values` values: all of them in
/// increasing order, or the one specific value.
pub open spec fn match_values(m: Match, num_values: nat) -> Seq<u16> {
    match m {
        Match::All => Seq::new(num_values, |i: int| i as u16),
        Match::Specific(v) => seq![v],
    }
}

/// Lists the values that `m` addresses among `num_values` values: all of
/// them in increasing order, or the one specific value. Addressing all
/// values takes at least one value.
pub fn iter_match_u16(m: Match, num_values: u16) -> (r: Vec<u16>)
    requires
        m is All ==> num_values >= 1,
    ensures
        r@ == match_values(m, num_values as nat),
{
    match m {
        Match::Specific(value) => vec![value],
        Match::All => {
            let max = num_values - 1;
            let mut r: Vec<u16> = Vec::new();
            let mut next: u16 = 0;
            while next <= max
                invariant_except_break
                    next <= max + 1,
                    r@ == Seq::new(next as nat, |i: int| i as u16),
                invariant
                    max + 1 == num_values,
                ensures
                    r@ == Seq::new(num_values as nat, |i: int| i as u16),
                decreases max + 1 - next,
            {
                r.push(next);
                proof {
                    assert(r@ =~= Seq::new((next + 1) as nat, |i: int| i as u16));
                }
                if next == max {
                    break;
                }
                next = next + 1;
            }
            r
        },
    }
}

/// The (port, channel) pairs that `channel` names on port `p`.
pub open spec fn port_targets(p: u16, channel: Match, channel_counts: Seq<u16>) -> Seq<(u16, u16)> {
    let channels = match_values(channel, channel_counts[p as int] as nat);
    Seq::new(channels.len(), |j: int| (p, channels[j]))
}

/// The (port, channel) pairs that an event naming `port` and `channel`
/// reaches, port by port and then channel by channel, when port `p` has
/// `channel_counts[p]` channels.
pub open spec fn note_targets(port: Match, channel: Match, channel_counts: Seq<u16>) -> Seq<(u16, u16)> {
    let ports = match_values(port, channel_counts.len());
    Seq::new(ports.len(), |i: int| port_targets(ports[i], channel, channel_counts)).flatten()
}

/// An event naming `port` and `channel` stays within the layout: every
/// port it names exists, and every channel it names exists on that port;
/// naming all ports or all channels takes at least one.
pub open spec fn targets_in_layout(port: Match, channel: Match, channel_counts: Seq<u16>) -> bool {
    let ports = match_values(port, channel_counts.len());
    &&& channel_counts.len() <= u16::MAX
    &&& (port is All ==> channel_counts.len() >= 1)
    &&& forall|i: int|
        0 <= i < ports.len() ==> {
            let p = #[trigger] ports[i];
            &&& p < channel_counts.len()
            &&& (channel is All ==> channel_counts[p as int] >= 1)
            &&& (channel matches Match::Specific(c) ==> c < channel_counts[p as int])
        }
}

/// Lists the (port, channel) pairs that a note event naming `port` and
/// `channel` reaches, when port `p` has `channel_counts[p]` channels.
pub fn target_note_in(port: Match, channel: Match, channel_counts: &[u16]) -> (r: Vec<(u16, u16)>)
    requires
        targets_in_layout(port, channel, channel_counts@),
    ensures
        r@ == note_targets(port, channel, channel_counts@),
{
    let ghost counts = channel_counts@;
    let ports = iter_match_u16(port, channel_counts.len() as u16);
    let ghost rows = Seq::new(ports@.len(), |i: int| port_targets(ports@[i], channel, counts));
    let mut r: Vec<(u16, u16)> = Vec::new();
    let mut i: usize = 0;
    while i < ports.len()
        invariant
            i <= ports@.len(),
            counts == channel_counts@,
            ports@ == match_values(port, counts.len()),
            targets_in_layout(port, channel, counts),
            rows == Seq::new(ports@.len(), |k: int| port_targets(ports@[k], channel, counts)),
            r@ == rows.take(i as int).flatten(),
        decreases ports@.len() - i,
    {
        let p = ports[i];
        proof {
            assert(p == ports@[i as int]);
        }
        let channels = iter_match_u16(channel, channel_counts[p as usize]);
        let ghost base = r@;
        let mut j: usize = 0;
        while j < channels.len()
            invariant
                j <= channels@.len(),
                channels@ == match_values(channel, counts[p as int] as nat),
                r@ == base + port_targets(p, channel, counts).take(j as int),
            decreases channels@.len() - j,
        {
            r.push((p, channels[j]));
            proof {
                assert(r@ =~= base + port_targets(p, channel, counts).take(j + 1));
            }
            j = j + 1;
        }
        proof {
            assert(port_targets(p, channel, counts).take(j as int) =~= port_targets(p, channel, counts));
            assert(rows.take(i + 1) =~= rows.take(i as int).push(rows[i as int]));
            rows.take(i as int).lemma_flatten_push(rows[i as int]);
        }
        i = i + 1;
    }
    proof {
        assert(rows.take(i as int) =~= rows);
    }
    r
}

/// Where note output `e` is routed when port `p` carries, on channel `c`,
/// the note output of index `channel_maps[p][c]`: `e` occurs at channel `c`
/// of port `p`, on no earlier port, and on no earlier channel of `p`.
pub open spec fn first_position(channel_maps: Seq<Seq<usize>>, e: usize, p: int, c: int) -> bool {
    &&& 0 <= p < channel_maps.len()
    &&& 0 <= c < channel_maps[p].len()
    &&& channel_maps[p][c] == e
    &&& forall|q: int| 0 <= q < p ==> !(#[trigger] channel_maps[q]).contains(e)
    &&& forall|d: int| 0 <= d < c ==> #[trigger] channel_maps[p][d] != e
}

/// The result of looking up note output `e` in the channel maps: the first
/// port carrying it and its first channel there, or `None` when no port
/// carries it.
pub open spec fn position_of(channel_maps: Seq<Seq<usize>>, e: usize, r: Option<(usize, usize)>) -> bool {
    match r {
        Some((p, c)) => first_position(channel_maps, e, p as int, c as int),
        None => forall|q: int| 0 <= q < channel_maps.len() ==> !(#[trigger] channel_maps[q]).contains(e),
    }
}

/// Finds the port and channel that carry note output `e`, when port `p`
/// carries on channel `c` the note output of index `channel_maps[p][c]`:
/// the first port that carries it, and its first channel there.
pub fn note_out_position(channel_maps: &Vec<Vec<usize>>, e: usize) -> (r: Option<(usize, usize)>)
    ensures
        position_of(channel_maps@.map_values(|m: Vec<usize>| m@), e, r),
{
    let ghost maps = channel_maps@.map_values(|m: Vec<usize>| m@);
    let mut p: usize = 0;
    while p < channel_maps.len()
        invariant
            p <= channel_maps@.len(),
            maps == channel_maps@.map_values(|m: Vec<usize>| m@),
            forall|q: int| 0 <= q < p ==> !(#[trigger] maps[q]).contains(e),
        decreases channel_maps@.len() - p,
    {
        let map = &channel_maps[p];
        proof {
            assert(maps[p as int] == map@);
        }
        let mut c: usize = 0;
        while c < map.len()
            invariant
                c <= map@.len(),
                p < channel_maps@.len(),
                maps == channel_maps@.map_values(|m: Vec<usize>| m@),
                maps[p as int] == map@,
                forall|q: int| 0 <= q < p ==> !(#[trigger] maps[q]).contains(e),
                forall|d: int| 0 <= d < c ==> #[trigger] map@[d] != e,
            decreases map@.len() - c,
        {
            if map[c] == e {
                return Some((p, c));
            }
            c = c + 1;
        }
        proof {
            assert(!maps[p as int].contains(e));
        }
        p = p + 1;
    }
    None
}

/// Builds the routing of note outputs `0..num_outputs`: entry `e` is the
/// port and channel that carry output `e`, as [`note_out_position`] finds
/// them.
pub fn note_out_map(channel_maps: &Vec<Vec<usize>>, num_outputs: usize) -> (r: Vec<Option<(usize, usize)>>)
    ensures
        r@.len() == num_outputs,
        forall|e: int|
            0 <= e < num_outputs ==> position_of(channel_maps@.map_values(|m: Vec<usize>| m@), e as usize, #[trigger] r@[e]),
{
    let mut r: Vec<Option<(usize, usize)>> = Vec::new();
    let mut e: usize = 0;
    while e < num_outputs
        invariant
            e <= num_outputs,
            r@.len() == e,
            forall|k: int|
                0 <= k < e ==> position_of(channel_maps@.map_values(|m: Vec<usize>| m@), k as usize, #[trigger] r@[k]),
        decreases num_outputs - e,
    {
        r.push(note_out_position(channel_maps, e));
        e = e + 1;
    }
    r
}

} // verus!
