//! The register of shared provider streams: one entry per stream URL, with
//! the response headers of the provider and the channel through which the
//! stream's data is handed to every subscriber.

use vstd::prelude::*;
use vstd::string::*;
use crate::text::str_eq;

verus! {

/// One shared stream: the provider's response headers and the sending end
/// of its broadcast channel.
pub struct SharedStreamState<T> {
    pub headers: Vec<(String, String)>,
    pub broadcast_tx: T,
}

/// Header pairs as character sequences.
pub open spec fn headers_view(h: Seq<(String, String)>) -> Seq<(Seq<char>, Seq<char>)> {
    h.map_values(|p: (String, String)| (p.0@, p.1@))
}

/// What the register keeps of a stream: its headers and its channel.
pub open spec fn state_view<T>(s: SharedStreamState<T>) -> (Seq<(Seq<char>, Seq<char>)>, T) {
    (headers_view(s.headers@), s.broadcast_tx)
}

/// The shared streams, by URL.
pub struct SharedStreamManager<T> {
    shared_streams: Vec<(String, (u64, SharedStreamState<T>))>,
    next_id: u64,
}

pub open spec fn urls_distinct<T>(s: Seq<(String, (u64, SharedStreamState<T>))>) -> bool {
    forall|i: int, j: int| 0 <= i < j < s.len() ==> (#[trigger] s[i]).0@ != (#[trigger] s[j]).0@
}

pub open spec fn has_url<T>(s: Seq<(String, (u64, SharedStreamState<T>))>, u: Seq<char>) -> bool {
    exists|i: int| 0 <= i < s.len() && (#[trigger] s[i]).0@ == u
}

/// What the register keeps of an entry: its registration id and its state.
pub open spec fn entry_view<T>(x: (u64, SharedStreamState<T>)) -> (u64, (Seq<(Seq<char>, Seq<char>)>, T)) {
    (x.0, state_view(x.1))
}

pub open spec fn entries_map<T>(s: Seq<(String, (u64, SharedStreamState<T>))>) -> Map<
    Seq<char>,
    (u64, (Seq<(Seq<char>, Seq<char>)>, T)),
> {
    Map::new(
        |u: Seq<char>| has_url(s, u),
        |u: Seq<char>|
            {
                let i = choose|i: int| 0 <= i < s.len() && (#[trigger] s[i]).0@ == u;
                entry_view(s[i].1)
            },
    )
}

impl<T> View for SharedStreamManager<T> {
    type V = Map<Seq<char>, (Seq<(Seq<char>, Seq<char>)>, T)>;

    closed spec fn view(&self) -> Self::V {
        entries_map(self.shared_streams@).map_values(|v: (u64, (Seq<(Seq<char>, Seq<char>)>, T))| v.1)
    }
}

/// The map of entries at an index of a URL holds that entry.
proof fn lemma_entries_at<T>(s: Seq<(String, (u64, SharedStreamState<T>))>, i: int)
    requires
        urls_distinct(s),
        0 <= i < s.len(),
    ensures
        entries_map(s).contains_key(s[i].0@),
        entries_map(s)[s[i].0@] == entry_view(s[i].1),
{
    let u = s[i].0@;
    assert(has_url(s, u));
    let k = choose|k: int| 0 <= k < s.len() && (#[trigger] s[k]).0@ == u;
    assert(k == i);
}

/// Appending an entry with a new URL adds it to the map.
proof fn lemma_entries_push<T>(s: Seq<(String, (u64, SharedStreamState<T>))>, e: (String, (u64, SharedStreamState<T>)))
    requires
        urls_distinct(s),
        !has_url(s, e.0@),
    ensures
        urls_distinct(s.push(e)),
        entries_map(s.push(e)) =~= entries_map(s).insert(e.0@, entry_view(e.1)),
{
    let t = s.push(e);
    assert forall|i: int, j: int| 0 <= i < j < t.len() implies (#[trigger] t[i]).0@ != (#[trigger] t[j]).0@ by {
        if j == s.len() {
            assert(s[i] == t[i]);
        } else {
            assert(s[i] == t[i] && s[j] == t[j]);
        }
    }
    assert forall|u: Seq<char>| #[trigger] entries_map(t).contains_key(u) == entries_map(s).insert(e.0@, entry_view(e.1)).contains_key(u) by {
        if has_url(s, u) {
            let k = choose|k: int| 0 <= k < s.len() && (#[trigger] s[k]).0@ == u;
            assert(t[k] == s[k]);
        }
        if u == e.0@ {
            assert(t[s.len() as int] == e);
        }
        if has_url(t, u) {
            let k = choose|k: int| 0 <= k < t.len() && (#[trigger] t[k]).0@ == u;
            if k < s.len() {
                assert(t[k] == s[k]);
            }
        }
    }
    assert forall|u: Seq<char>| #[trigger] entries_map(t).contains_key(u) implies entries_map(t)[u]
        == entries_map(s).insert(e.0@, entry_view(e.1))[u] by {
        let k = choose|k: int| 0 <= k < t.len() && (#[trigger] t[k]).0@ == u;
        lemma_entries_at(t, k);
        if k < s.len() {
            assert(t[k] == s[k]);
            lemma_entries_at(s, k);
        } else {
            assert(t[k] == e);
        }
    }
}

/// Removing the entry at an index removes its URL from the map.
proof fn lemma_entries_remove<T>(s: Seq<(String, (u64, SharedStreamState<T>))>, i: int)
    requires
        urls_distinct(s),
        0 <= i < s.len(),
    ensures
        urls_distinct(s.remove(i)),
        !has_url(s.remove(i), s[i].0@),
        entries_map(s.remove(i)) =~= entries_map(s).remove(s[i].0@),
{
    let t = s.remove(i);
    let gone = s[i].0@;
    assert forall|a: int, b: int| 0 <= a < b < t.len() implies (#[trigger] t[a]).0@ != (#[trigger] t[b]).0@ by {
        let sa = if a < i { a } else { a + 1 };
        let sb = if b < i { b } else { b + 1 };
        assert(t[a] == s[sa] && t[b] == s[sb]);
    }
    if has_url(t, gone) {
        let k = choose|k: int| 0 <= k < t.len() && (#[trigger] t[k]).0@ == gone;
        let sk = if k < i { k } else { k + 1 };
        assert(t[k] == s[sk]);
        assert(false);
    }
    assert forall|u: Seq<char>| #[trigger] entries_map(t).contains_key(u) == entries_map(s).remove(gone).contains_key(u) by {
        if has_url(t, u) {
            let k = choose|k: int| 0 <= k < t.len() && (#[trigger] t[k]).0@ == u;
            let sk = if k < i { k } else { k + 1 };
            assert(t[k] == s[sk]);
        }
        if has_url(s, u) && u != gone {
            let k = choose|k: int| 0 <= k < s.len() && (#[trigger] s[k]).0@ == u;
            let tk = if k < i { k } else { k - 1 };
            assert(k != i);
            assert(t[tk] == s[k]);
        }
    }
    assert forall|u: Seq<char>| #[trigger] entries_map(t).contains_key(u) implies entries_map(t)[u]
        == entries_map(s).remove(gone)[u] by {
        let k = choose|k: int| 0 <= k < t.len() && (#[trigger] t[k]).0@ == u;
        let sk = if k < i { k } else { k + 1 };
        assert(t[k] == s[sk]);
        lemma_entries_at(t, k);
        lemma_entries_at(s, sk);
    }
}

/// The register and its registration ids after the end of the stream with
/// registration `id` under `url`: the entry goes only while it is that
/// registration.
pub open spec fn spec_unregister_if_current<T>(
    view: Map<Seq<char>, (Seq<(Seq<char>, Seq<char>)>, T)>,
    ids: Map<Seq<char>, u64>,
    url: Seq<char>,
    id: u64,
) -> (Map<Seq<char>, (Seq<(Seq<char>, Seq<char>)>, T)>, Map<Seq<char>, u64>) {
    if ids.contains_key(url) && ids[url] == id {
        (view.remove(url), ids.remove(url))
    } else {
        (view, ids)
    }
}

impl<T> SharedStreamManager<T> {
    /// No URL is registered twice, and every registration id is below the
    /// next one to hand out.
    pub closed spec fn wf(&self) -> bool {
        &&& urls_distinct(self.shared_streams@)
        &&& forall|i: int| 0 <= i < self.shared_streams@.len() ==> (#[trigger] self.shared_streams@[i]).1.0
            < self.next_id
    }

    /// The id of each URL's current registration.
    pub closed spec fn registration_ids(&self) -> Map<Seq<char>, u64> {
        entries_map(self.shared_streams@).map_values(|v: (u64, (Seq<(Seq<char>, Seq<char>)>, T))| v.0)
    }

    /// The id the next registration gets.
    pub closed spec fn next_id(&self) -> u64 {
        self.next_id
    }

    /// An empty register.
    pub fn new() -> (r: Self)
        ensures
            r.wf(),
            r@ == Map::<Seq<char>, (Seq<(Seq<char>, Seq<char>)>, T)>::empty(),
            r.registration_ids() == Map::<Seq<char>, u64>::empty(),
            r.next_id() == 0,
    {
        let r = SharedStreamManager { shared_streams: Vec::new(), next_id: 0 };
        assert(r@ =~= Map::<Seq<char>, (Seq<(Seq<char>, Seq<char>)>, T)>::empty());
        assert(r.registration_ids() =~= Map::<Seq<char>, u64>::empty());
        r
    }

    /// Whether another registration can be handed an id.
    pub fn can_register(&self) -> (r: bool)
        ensures
            r == (self.next_id() < u64::MAX),
    {
        self.next_id < u64::MAX
    }

    fn find(&self, stream_url: &str) -> (r: Option<usize>)
        ensures
            match r {
                Some(i) => i < self.shared_streams@.len() && self.shared_streams@[i as int].0@
                    == stream_url@,
                None => !has_url(self.shared_streams@, stream_url@),
            },
    {
        let n: usize = self.shared_streams.len();
        let mut i: usize = 0;
        while i < n
            invariant
                n == self.shared_streams@.len(),
                i <= n,
                forall|t: int| 0 <= t < i ==> (#[trigger] self.shared_streams@[t]).0@ != stream_url@,
            decreases n - i,
        {
            if str_eq(self.shared_streams[i].0.as_str(), stream_url) {
                return Some(i);
            }
            i = i + 1;
        }
        None
    }

    /// The headers of a shared stream, if one is registered under the URL.
    pub fn get_shared_state_headers(&self, stream_url: &str) -> (r: Option<Vec<(String, String)>>)
        requires
            self.wf(),
        ensures
            match r {
                Some(h) => self@.contains_key(stream_url@) && headers_view(h@) == self@[stream_url@].0,
                None => !self@.contains_key(stream_url@),
            },
    {
        match self.find(stream_url) {
            None => None,
            Some(i) => {
                proof {
                    lemma_entries_at(self.shared_streams@, i as int);
                }
                let src: &Vec<(String, String)> = &self.shared_streams[i].1.1.headers;
                let mut out: Vec<(String, String)> = Vec::new();
                let m: usize = src.len();
                let mut j: usize = 0;
                while j < m
                    invariant
                        m == src@.len(),
                        j <= m,
                        headers_view(out@) =~= headers_view(src@.take(j as int)),
                    decreases m - j,
                {
                    let a: String = src[j].0.clone();
                    let b: String = src[j].1.clone();
                    assert(a@ == src@[j as int].0@ && b@ == src@[j as int].1@);
                    let ghost before = out@;
                    out.push((a, b));
                    assert(src@.take(j + 1) =~= src@.take(j as int).push(src@[j as int]));
                    assert(headers_view(out@) =~= headers_view(before).push((a@, b@)));
                    assert(headers_view(src@.take(j + 1)) =~= headers_view(src@.take(j as int)).push(
                        (src@[j as int].0@, src@[j as int].1@),
                    ));
                    j = j + 1;
                }
                assert(src@.take(m as int) =~= src@);
                Some(out)
            },
        }
    }

    /// The broadcast channel of a shared stream that a new subscriber
    /// listens to, if one is registered under the URL.
    pub fn subscribe_shared_stream(&self, stream_url: &str) -> (r: Option<&T>)
        requires
            self.wf(),
        ensures
            match r {
                Some(t) => self@.contains_key(stream_url@) && *t == self@[stream_url@].1,
                None => !self@.contains_key(stream_url@),
            },
    {
        match self.find(stream_url) {
            None => None,
            Some(i) => {
                proof {
                    lemma_entries_at(self.shared_streams@, i as int);
                }
                Some(&self.shared_streams[i].1.1.broadcast_tx)
            },
        }
    }

    fn remove_at(&mut self, i: usize)
        requires
            old(self).wf(),
            i < old(self).shared_streams@.len(),
        ensures
            final(self).wf(),
            final(self).next_id == old(self).next_id,
            !has_url(final(self).shared_streams@, old(self).shared_streams@[i as int].0@),
            entries_map(final(self).shared_streams@) == entries_map(old(self).shared_streams@).remove(
                old(self).shared_streams@[i as int].0@,
            ),
    {
        proof {
            lemma_entries_remove(self.shared_streams@, i as int);
        }
        let _ = self.shared_streams.remove(i);
        assert forall|k: int| 0 <= k < self.shared_streams@.len() implies (#[trigger] self.shared_streams@[k]).1.0
            < self.next_id by {
            let sk = if k < i { k } else { k + 1 };
            assert(self.shared_streams@[k] == old(self).shared_streams@[sk]);
        }
    }

    /// Registers a shared stream under its URL, replacing one registered
    /// there before; returns the id of this registration, larger than every
    /// id handed out before.
    pub fn register(&mut self, stream_url: &str, shared_state: SharedStreamState<T>) -> (id: u64)
        requires
            old(self).wf(),
            old(self).next_id() < u64::MAX,
        ensures
            final(self).wf(),
            final(self)@ == old(self)@.insert(stream_url@, state_view(shared_state)),
            final(self).registration_ids() == old(self).registration_ids().insert(stream_url@, id),
            id == old(self).next_id(),
            final(self).next_id() == id + 1,
            forall|u: Seq<char>| #[trigger] old(self).registration_ids().contains_key(u) ==> old(
                self,
            ).registration_ids()[u] < id,
    {
        proof {
            assert forall|u: Seq<char>| #[trigger] old(self).registration_ids().contains_key(u) implies old(
                self,
            ).registration_ids()[u] < old(self).next_id by {
                let s = old(self).shared_streams@;
                let k = choose|k: int| 0 <= k < s.len() && (#[trigger] s[k]).0@ == u;
                lemma_entries_at(s, k);
            }
        }
        let ghost m0 = entries_map(self.shared_streams@);
        match self.find(stream_url) {
            None => {
                assert(entries_map(self.shared_streams@) =~= m0.remove(stream_url@));
            },
            Some(i) => {
                self.remove_at(i);
            },
        }
        let id: u64 = self.next_id;
        let entry: (String, (u64, SharedStreamState<T>)) = (String::from_str(stream_url), (id, shared_state));
        proof {
            lemma_entries_push(self.shared_streams@, entry);
        }
        self.shared_streams.push(entry);
        self.next_id = id + 1;
        let ghost m1 = entries_map(self.shared_streams@);
        assert(m1 =~= m0.remove(stream_url@).insert(stream_url@, (id, state_view(shared_state))));
        assert(m1 =~= m0.insert(stream_url@, (id, state_view(shared_state))));
        assert(self@ =~= old(self)@.insert(stream_url@, state_view(shared_state)));
        assert(self.registration_ids() =~= old(self).registration_ids().insert(stream_url@, id));
        assert forall|k: int| 0 <= k < self.shared_streams@.len() implies (#[trigger] self.shared_streams@[k]).1.0
            < self.next_id by {
            if k < self.shared_streams@.len() - 1 {
                assert(self.shared_streams@[k] == self.shared_streams@.drop_last()[k]);
            }
        }
        id
    }

    /// Removes the shared stream registered under the URL, if any.
    pub fn unregister(&mut self, stream_url: &str)
        requires
            old(self).wf(),
        ensures
            final(self).wf(),
            final(self)@ == old(self)@.remove(stream_url@),
            final(self).registration_ids() == old(self).registration_ids().remove(stream_url@),
            final(self).next_id() == old(self).next_id(),
    {
        let ghost m0 = entries_map(self.shared_streams@);
        match self.find(stream_url) {
            None => {
                assert(m0 =~= m0.remove(stream_url@));
            },
            Some(i) => {
                self.remove_at(i);
            },
        }
        assert(self@ =~= old(self)@.remove(stream_url@));
        assert(self.registration_ids() =~= old(self).registration_ids().remove(stream_url@));
    }

    /// Removes the shared stream under the URL only while it is still the
    /// registration with this id: the end of an earlier stream does not
    /// remove a later registration of the same URL.
    pub fn unregister_if_current(&mut self, stream_url: &str, id: u64)
        requires
            old(self).wf(),
        ensures
            final(self).wf(),
            final(self).next_id() == old(self).next_id(),
            (final(self)@, final(self).registration_ids()) == spec_unregister_if_current(
                old(self)@,
                old(self).registration_ids(),
                stream_url@,
                id,
            ),
    {
        match self.find(stream_url) {
            None => {},
            Some(i) => {
                proof {
                    lemma_entries_at(self.shared_streams@, i as int);
                }
                if self.shared_streams[i].1.0 == id {
                    self.remove_at(i);
                    assert(self@ =~= old(self)@.remove(stream_url@));
                    assert(self.registration_ids() =~= old(self).registration_ids().remove(stream_url@));
                }
            },
        }
    }
}

} // verus!

verus! {

/// After a stream is registered under a URL, the headers and the channel
/// read back under that URL are the registered ones, and what other URLs
/// give is unchanged.
pub proof fn law_register_then_read<T>(
    before: Map<Seq<char>, (Seq<(Seq<char>, Seq<char>)>, T)>,
    url: Seq<char>,
    state: SharedStreamState<T>,
    other: Seq<char>,
)
    requires
        other != url,
    ensures
        before.insert(url, state_view(state)).contains_key(url),
        before.insert(url, state_view(state))[url].0 == headers_view(state.headers@),
        before.insert(url, state_view(state))[url].1 == state.broadcast_tx,
        before.insert(url, state_view(state)).contains_key(other) == before.contains_key(other),
        before.contains_key(other) ==> before.insert(url, state_view(state))[other] == before[other],
{
}

/// After the stream under a URL is unregistered, nothing is found under
/// that URL and other URLs are unaffected.
pub proof fn law_unregister_then_read<T>(
    before: Map<Seq<char>, (Seq<(Seq<char>, Seq<char>)>, T)>,
    url: Seq<char>,
    other: Seq<char>,
)
    requires
        other != url,
    ensures
        !before.remove(url).contains_key(url),
        before.remove(url).contains_key(other) == before.contains_key(other),
        before.contains_key(other) ==> before.remove(url)[other] == before[other],
{
}

} // verus!

verus! {

/// A call on the register, as the register sees it: `register` with a URL
/// and the kept state, or `unregister` with a URL.
pub enum StreamOp<T> {
    Register(Seq<char>, (Seq<(Seq<char>, Seq<char>)>, T)),
    Unregister(Seq<char>),
}

/// The register after one call (the `ensures` of `register` and
/// `unregister`).
pub open spec fn apply_stream_op<T>(
    m: Map<Seq<char>, (Seq<(Seq<char>, Seq<char>)>, T)>,
    op: StreamOp<T>,
) -> Map<Seq<char>, (Seq<(Seq<char>, Seq<char>)>, T)> {
    match op {
        StreamOp::Register(url, state) => m.insert(url, state),
        StreamOp::Unregister(url) => m.remove(url),
    }
}

/// The register after a sequence of calls, in order.
pub open spec fn apply_stream_ops<T>(
    m: Map<Seq<char>, (Seq<(Seq<char>, Seq<char>)>, T)>,
    ops: Seq<StreamOp<T>>,
) -> Map<Seq<char>, (Seq<(Seq<char>, Seq<char>)>, T)>
    decreases ops.len(),
{
    if ops.len() == 0 {
        m
    } else {
        apply_stream_op(apply_stream_ops(m, ops.drop_last()), ops.last())
    }
}

/// The state of the last registration of `url` that no unregistration of
/// `url` follows, if there is one.
pub open spec fn last_registration<T>(ops: Seq<StreamOp<T>>, url: Seq<char>) -> Option<
    (Seq<(Seq<char>, Seq<char>)>, T),
>
    decreases ops.len(),
{
    if ops.len() == 0 {
        None
    } else {
        match ops.last() {
            StreamOp::Register(u, state) => if u == url {
                Some(state)
            } else {
                last_registration(ops.drop_last(), url)
            },
            StreamOp::Unregister(u) => if u == url {
                None
            } else {
                last_registration(ops.drop_last(), url)
            },
        }
    }
}

/// Starting from an empty register, after any sequence of `register` and
/// `unregister` calls a URL holds the state (headers and channel) of its
/// last registration that no unregistration followed, and nothing when
/// there is none; calls for other URLs do not change it.
pub proof fn law_register_sequence<T>(ops: Seq<StreamOp<T>>, url: Seq<char>)
    ensures
        match last_registration(ops, url) {
            Some(state) => apply_stream_ops(Map::empty(), ops).contains_key(url) && apply_stream_ops(
                Map::empty(),
                ops,
            )[url] == state,
            None => !apply_stream_ops(Map::empty(), ops).contains_key(url),
        },
    decreases ops.len(),
{
    if ops.len() > 0 {
        law_register_sequence(ops.drop_last(), url);
    }
}

} // verus!

verus! {

/// A stream's end cleans up only its own registration: after a URL is
/// registered again (with a new, larger id), the end of the earlier stream
/// leaves the later registration in place, while the end of the later
/// stream removes it.
pub proof fn law_later_registration_survives<T>(
    view: Map<Seq<char>, (Seq<(Seq<char>, Seq<char>)>, T)>,
    ids: Map<Seq<char>, u64>,
    url: Seq<char>,
    state: SharedStreamState<T>,
    earlier_id: u64,
    later_id: u64,
)
    requires
        earlier_id < later_id,
    ensures
        spec_unregister_if_current(view.insert(url, state_view(state)), ids.insert(url, later_id), url, earlier_id)
            == (view.insert(url, state_view(state)), ids.insert(url, later_id)),
        spec_unregister_if_current(view.insert(url, state_view(state)), ids.insert(url, later_id), url, later_id).0
            == view.remove(url),
        spec_unregister_if_current(view.insert(url, state_view(state)), ids.insert(url, later_id), url, later_id).1
            == ids.remove(url),
{
    assert(view.insert(url, state_view(state)).remove(url) =~= view.remove(url));
    assert(ids.insert(url, later_id).remove(url) =~= ids.remove(url));
}

} // verus!
