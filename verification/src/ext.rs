//! RTP header extension maps and their negotiation.
//!
//! A map has fourteen id slots.  Each surviving extension of a negotiated
//! media kind gets the offerer's id; both sides then adopt the negotiated
//! list for that kind, while ids valid only for the other kind are left
//! untouched and not sent on the negotiated kind's m-line.

use vstd::prelude::*;

verus! {

/// The number of negotiable extension ids (1 through 14).
pub const MAP_SLOTS: usize = 14;

/// The header extensions the map knows how to describe.
#[derive(Clone, Copy, Debug, PartialEq, Eq, Structural, Hash)]
pub enum Extension {
    AudioLevel,
    AbsoluteSendTime,
    TransportSequenceNumber,
    RtpMid,
    RtpStreamId,
    RepairedRtpStreamId,
    VideoOrientation,
}

/// Whether `e` is valid on an audio m-line.
pub open spec fn ext_is_audio(e: Extension) -> bool {
    !(e is VideoOrientation)
}

/// Whether `e` is valid on a video m-line.
pub open spec fn ext_is_video(e: Extension) -> bool {
    !(e is AudioLevel)
}

fn ext_audio(e: Extension) -> (r: bool)
    ensures
        r == ext_is_audio(e),
{
    match e {
        Extension::VideoOrientation => false,
        _ => true,
    }
}

fn ext_video(e: Extension) -> (r: bool)
    ensures
        r == ext_is_video(e),
{
    match e {
        Extension::AudioLevel => false,
        _ => true,
    }
}

fn ext_eq(a: Extension, b: Extension) -> (r: bool)
    ensures
        r == (a == b),
{
    match (a, b) {
        (Extension::AudioLevel, Extension::AudioLevel) => true,
        (Extension::AbsoluteSendTime, Extension::AbsoluteSendTime) => true,
        (Extension::TransportSequenceNumber, Extension::TransportSequenceNumber) => true,
        (Extension::RtpMid, Extension::RtpMid) => true,
        (Extension::RtpStreamId, Extension::RtpStreamId) => true,
        (Extension::RepairedRtpStreamId, Extension::RepairedRtpStreamId) => true,
        (Extension::VideoOrientation, Extension::VideoOrientation) => true,
        _ => false,
    }
}

/// One occupied id slot: the extension and on which kinds it is active.
#[derive(Clone, Copy, Debug, PartialEq, Eq, Structural)]
pub struct MapEntry {
    pub ext: Extension,
    pub audio_on: bool,
    pub video_on: bool,
}

/// Whether the entry is active for the kind selected by `audio`.
pub open spec fn kind_on(e: MapEntry, audio: bool) -> bool {
    if audio {
        e.audio_on
    } else {
        e.video_on
    }
}

/// The `(id, extension)` pairs active for a kind among the first `n` slots,
/// in ascending id order.
pub open spec fn iter_spec(entries: Seq<Option<MapEntry>>, audio: bool, n: int) -> Seq<
    (u8, Extension),
>
    decreases n,
{
    if n <= 0 {
        Seq::empty()
    } else {
        let rest = iter_spec(entries, audio, n - 1);
        match entries[n - 1] {
            Option::Some(e) => if kind_on(e, audio) {
                rest.push((n as u8, e.ext))
            } else {
                rest
            },
            Option::None => rest,
        }
    }
}

/// Whether some slot holds `ext` active for the kind.
pub open spec fn map_has_ext_on(entries: Seq<Option<MapEntry>>, ext: Extension, audio: bool) -> bool {
    exists|k: int|
        {
            &&& 0 <= k < entries.len()
            &&& (#[trigger] entries[k]) matches Option::Some(e)
            &&& e.ext == ext
            &&& kind_on(e, audio)
        }
}

/// The negotiated list for a kind: the offerer's active extensions, in
/// ascending offerer id order, that are also active on the answerer side
/// and valid for the kind.
pub open spec fn surviving(
    offer: Seq<Option<MapEntry>>,
    answerer: Seq<Option<MapEntry>>,
    audio: bool,
    n: int,
) -> Seq<(u8, Extension)>
    decreases n,
{
    if n <= 0 {
        Seq::empty()
    } else {
        let rest = surviving(offer, answerer, audio, n - 1);
        match offer[n - 1] {
            Option::Some(e) => if kind_on(e, audio) && map_has_ext_on(answerer, e.ext, audio) {
                rest.push((n as u8, e.ext))
            } else {
                rest
            },
            Option::None => rest,
        }
    }
}

/// First index of `neg` carrying id `id`, or -1.
pub open spec fn find_neg_id(neg: Seq<(u8, Extension)>, id: u8) -> int
    decreases neg.len(),
{
    if neg.len() == 0 {
        -1
    } else if neg[0].0 == id {
        0
    } else {
        let rest = find_neg_id(neg.drop_first(), id);
        if rest == -1 {
            -1
        } else {
            rest + 1
        }
    }
}

/// Whether `neg` carries the extension `ext` under any id.
pub open spec fn neg_has_ext(neg: Seq<(u8, Extension)>, ext: Extension) -> bool {
    exists|j: int| 0 <= j < neg.len() && (#[trigger] neg[j]).1 == ext
}

/// First slot index holding `ext`, or -1.
pub open spec fn find_ext(entries: Seq<Option<MapEntry>>, ext: Extension) -> int
    decreases entries.len(),
{
    if entries.len() == 0 {
        -1
    } else if entries[0] matches Option::Some(e) && e.ext == ext {
        0
    } else {
        let rest = find_ext(entries.drop_first(), ext);
        if rest == -1 {
            -1
        } else {
            rest + 1
        }
    }
}

/// The flag the extension carried for the kind NOT being negotiated, read
/// off its old slot; absent extensions carry nothing.
pub open spec fn carried_other_flag(
    entries: Seq<Option<MapEntry>>,
    ext: Extension,
    audio: bool,
) -> bool {
    let f = find_ext(entries, ext);
    if f >= 0 {
        match entries[f] {
            Option::Some(e) => if audio {
                e.video_on
            } else {
                e.audio_on
            },
            Option::None => false,
        }
    } else {
        false
    }
}

/// Slot `k` after a map adopts the negotiated list for a kind: a
/// negotiated id holds its extension, active for the negotiated kind and
/// carrying the extension's old flag for the other kind; an extension that
/// moved away leaves its slot empty; any other entry merely goes inactive
/// for the negotiated kind.
pub open spec fn applied_slot(
    entries: Seq<Option<MapEntry>>,
    neg: Seq<(u8, Extension)>,
    audio: bool,
    k: int,
) -> Option<MapEntry> {
    let id = (k + 1) as u8;
    let j = find_neg_id(neg, id);
    if j >= 0 {
        let ext = neg[j].1;
        Option::Some(
            MapEntry {
                ext,
                audio_on: if audio {
                    true
                } else {
                    carried_other_flag(entries, ext, audio)
                },
                video_on: if audio {
                    carried_other_flag(entries, ext, audio)
                } else {
                    true
                },
            },
        )
    } else {
        match entries[k] {
            Option::Some(en) => if neg_has_ext(neg, en.ext) {
                Option::None
            } else {
                Option::Some(
                    MapEntry {
                        ext: en.ext,
                        audio_on: if audio {
                            false
                        } else {
                            en.audio_on
                        },
                        video_on: if audio {
                            en.video_on
                        } else {
                            false
                        },
                    },
                )
            },
            Option::None => Option::None,
        }
    }
}

/// A whole map after adopting the negotiated list for a kind.
pub open spec fn applied(
    entries: Seq<Option<MapEntry>>,
    neg: Seq<(u8, Extension)>,
    audio: bool,
) -> Seq<Option<MapEntry>> {
    Seq::new(entries.len(), |k: int| applied_slot(entries, neg, audio, k))
}

/// Mapping of extension ids 1 through 14 to extensions, kept per kind.
pub struct ExtensionMap {
    entries: Vec<Option<MapEntry>>,
}

impl ExtensionMap {
    pub closed spec fn entries_spec(self) -> Seq<Option<MapEntry>> {
        self.entries@
    }

    pub open spec fn wf(self) -> bool {
        self.entries_spec().len() == MAP_SLOTS
    }

    /// A map with every id unassigned.
    pub fn empty() -> (r: ExtensionMap)
        ensures
            r.wf(),
            forall|k: int| 0 <= k < MAP_SLOTS ==> r.entries_spec()[k] is None,
    {
        let mut entries: Vec<Option<MapEntry>> = Vec::new();
        let mut i: usize = 0;
        while i < MAP_SLOTS
            invariant
                i <= MAP_SLOTS,
                entries@.len() == i,
                forall|k: int| 0 <= k < i ==> entries@[k] is None,
            decreases MAP_SLOTS - i,
        {
            entries.push(None);
            i = i + 1;
        }
        ExtensionMap { entries }
    }

    /// The recommended default mapping.
    pub fn standard() -> (r: ExtensionMap)
        ensures
            r.wf(),
            r.entries_spec() == standard_entries(),
    {
        let mut m = ExtensionMap::empty();
        m.set(1, Extension::AudioLevel);
        m.set(2, Extension::AbsoluteSendTime);
        m.set(3, Extension::TransportSequenceNumber);
        m.set(4, Extension::RtpMid);
        m.set(10, Extension::RtpStreamId);
        m.set(11, Extension::RepairedRtpStreamId);
        proof {
            assert(m.entries_spec() =~= standard_entries());
        }
        m
    }

    /// Assign `ext` to `id`, active for every kind it is valid on.
    pub fn set(&mut self, id: u8, ext: Extension)
        requires
            old(self).wf(),
            1 <= id <= MAP_SLOTS,
        ensures
            final(self).wf(),
            final(self).entries_spec() == old(self).entries_spec().update(
                id - 1,
                Option::Some(
                    MapEntry { ext, audio_on: ext_is_audio(ext), video_on: ext_is_video(ext) },
                ),
            ),
    {
        let entry = MapEntry { ext, audio_on: ext_audio(ext), video_on: ext_video(ext) };
        self.entries.set((id - 1) as usize, Some(entry));
    }

    /// The `(id, extension)` pairs active for a kind, ascending by id.
    pub fn iter(&self, audio: bool) -> (r: Vec<(u8, Extension)>)
        requires
            self.wf(),
        ensures
            r@ == iter_spec(self.entries_spec(), audio, MAP_SLOTS as int),
    {
        let mut out: Vec<(u8, Extension)> = Vec::new();
        let mut i: usize = 0;
        while i < MAP_SLOTS
            invariant
                self.wf(),
                i <= MAP_SLOTS,
                out@ == iter_spec(self.entries_spec(), audio, i as int),
            decreases MAP_SLOTS - i,
        {
            match self.entries[i] {
                Some(e) => {
                    let on = if audio {
                        e.audio_on
                    } else {
                        e.video_on
                    };
                    if on {
                        out.push(((i + 1) as u8, e.ext));
                    }
                },
                None => {},
            }
            i = i + 1;
        }
        out
    }

    /// Whether some slot holds `ext` active for the kind.
    fn has_ext_on(&self, ext: Extension, audio: bool) -> (r: bool)
        requires
            self.wf(),
        ensures
            r == map_has_ext_on(self.entries_spec(), ext, audio),
    {
        let mut i: usize = 0;
        while i < MAP_SLOTS
            invariant
                self.wf(),
                i <= MAP_SLOTS,
                forall|k: int|
                    0 <= k < i ==> !((#[trigger] self.entries_spec()[k]) matches Option::Some(e)
                        && e.ext == ext && kind_on(e, audio)),
            decreases MAP_SLOTS - i,
        {
            match self.entries[i] {
                Some(e) => {
                    let on = if audio {
                        e.audio_on
                    } else {
                        e.video_on
                    };
                    if on && ext_eq(e.ext, ext) {
                        return true;
                    }
                },
                None => {},
            }
            i = i + 1;
        }
        false
    }

    /// Answer an offered map for one kind: compute the surviving list and
    /// adopt it.  The returned list is what the answer carries back.
    pub fn answer_exts(&mut self, offered: &ExtensionMap, audio: bool) -> (r: Vec<(u8, Extension)>)
        requires
            old(self).wf(),
            offered.wf(),
        ensures
            final(self).wf(),
            r@ == surviving(
                offered.entries_spec(),
                old(self).entries_spec(),
                audio,
                MAP_SLOTS as int,
            ),
            final(self).entries_spec() == applied(old(self).entries_spec(), r@, audio),
    {
        let mut neg: Vec<(u8, Extension)> = Vec::new();
        let mut i: usize = 0;
        while i < MAP_SLOTS
            invariant
                old(self).wf(),
                offered.wf(),
                self.entries@ == old(self).entries@,
                i <= MAP_SLOTS,
                neg@ == surviving(offered.entries_spec(), old(self).entries_spec(), audio, i as int),
            decreases MAP_SLOTS - i,
        {
            match offered.entries[i] {
                Some(e) => {
                    let on = if audio {
                        e.audio_on
                    } else {
                        e.video_on
                    };
                    if on && self.has_ext_on(e.ext, audio) {
                        neg.push(((i + 1) as u8, e.ext));
                    }
                },
                None => {},
            }
            i = i + 1;
        }
        self.apply_negotiated(&neg, audio);
        neg
    }

    /// Adopt a negotiated list for one kind, as the offering side does on
    /// receiving the answer.
    pub fn apply_negotiated(&mut self, neg: &Vec<(u8, Extension)>, audio: bool)
        requires
            old(self).wf(),
        ensures
            final(self).wf(),
            final(self).entries_spec() == applied(old(self).entries_spec(), neg@, audio),
    {
        let ghost pre = self.entries@;
        let mut out: Vec<Option<MapEntry>> = Vec::new();
        let mut k: usize = 0;
        while k < MAP_SLOTS
            invariant
                old(self).wf(),
                self.entries@ == pre,
                pre.len() == MAP_SLOTS,
                k <= MAP_SLOTS,
                out@.len() == k,
                forall|t: int| 0 <= t < k ==> out@[t] == applied_slot(pre, neg@, audio, t),
            decreases MAP_SLOTS - k,
        {
            let slot = match self.find_in_neg(neg, (k + 1) as u8) {
                Some(j) => {
                    let ext = neg[j].1;
                    let carried = self.other_flag_of(ext, audio);
                    Some(
                        MapEntry {
                            ext,
                            audio_on: if audio {
                                true
                            } else {
                                carried
                            },
                            video_on: if audio {
                                carried
                            } else {
                                true
                            },
                        },
                    )
                },
                None => {
                    match self.entries[k] {
                        Some(en) => {
                            if self.neg_contains_ext(neg, en.ext) {
                                None
                            } else {
                                Some(
                                    MapEntry {
                                        ext: en.ext,
                                        audio_on: if audio {
                                            false
                                        } else {
                                            en.audio_on
                                        },
                                        video_on: if audio {
                                            en.video_on
                                        } else {
                                            false
                                        },
                                    },
                                )
                            }
                        },
                        None => None,
                    }
                },
            };
            proof {
                assert(slot == applied_slot(pre, neg@, audio, k as int));
            }
            out.push(slot);
            k = k + 1;
        }
        self.entries = out;
        proof {
            assert(self.entries@ =~= applied(pre, neg@, audio));
        }
    }

    /// Find the negotiated entry with `id`.
    fn find_in_neg(&self, neg: &Vec<(u8, Extension)>, id: u8) -> (r: Option<usize>)
        ensures
            match r {
                Option::Some(j) => {
                    &&& find_neg_id(neg@, id) == j as int
                    &&& 0 <= j < neg@.len()
                    &&& neg@[j as int].0 == id
                },
                Option::None => find_neg_id(neg@, id) == -1,
            },
    {
        let n = neg.len();
        let mut j: usize = 0;
        while j < n
            invariant
                n == neg@.len(),
                j <= n,
                forall|t: int| 0 <= t < j ==> neg@[t].0 != id,
            decreases n - j,
        {
            if neg[j].0 == id {
                proof {
                    lemma_find_neg_id_at(neg@, id, j as int);
                }
                return Some(j);
            }
            j = j + 1;
        }
        proof {
            lemma_find_neg_id_none(neg@, id);
        }
        None
    }

    /// Whether the negotiated list carries `ext`.
    fn neg_contains_ext(&self, neg: &Vec<(u8, Extension)>, ext: Extension) -> (r: bool)
        ensures
            r == neg_has_ext(neg@, ext),
    {
        let n = neg.len();
        let mut j: usize = 0;
        while j < n
            invariant
                n == neg@.len(),
                j <= n,
                forall|t: int| 0 <= t < j ==> (#[trigger] neg@[t]).1 != ext,
            decreases n - j,
        {
            if ext_eq(neg[j].1, ext) {
                return true;
            }
            j = j + 1;
        }
        false
    }

    /// The other kind's flag carried by `ext` from its old slot.
    fn other_flag_of(&self, ext: Extension, audio: bool) -> (r: bool)
        requires
            self.wf(),
        ensures
            r == carried_other_flag(self.entries_spec(), ext, audio),
    {
        let mut i: usize = 0;
        while i < MAP_SLOTS
            invariant
                self.wf(),
                i <= MAP_SLOTS,
                forall|k: int|
                    0 <= k < i ==> !((#[trigger] self.entries_spec()[k]) matches Option::Some(e)
                        && e.ext == ext),
            decreases MAP_SLOTS - i,
        {
            match self.entries[i] {
                Some(e) => {
                    if ext_eq(e.ext, ext) {
                        proof {
                            lemma_find_ext_at(self.entries_spec(), ext, i as int);
                        }
                        return if audio {
                            e.video_on
                        } else {
                            e.audio_on
                        };
                    }
                },
                None => {},
            }
            i = i + 1;
        }
        proof {
            lemma_find_ext_none(self.entries_spec(), ext);
        }
        false
    }
}

/// The recommended default mapping as a sequence of slots.
pub open spec fn standard_entries() -> Seq<Option<MapEntry>> {
    seq![
        Option::Some(MapEntry { ext: Extension::AudioLevel, audio_on: true, video_on: false }),
        Option::Some(MapEntry { ext: Extension::AbsoluteSendTime, audio_on: true, video_on: true }),
        Option::Some(
            MapEntry { ext: Extension::TransportSequenceNumber, audio_on: true, video_on: true },
        ),
        Option::Some(MapEntry { ext: Extension::RtpMid, audio_on: true, video_on: true }),
        Option::None,
        Option::None,
        Option::None,
        Option::None,
        Option::None,
        Option::Some(MapEntry { ext: Extension::RtpStreamId, audio_on: true, video_on: true }),
        Option::Some(
            MapEntry { ext: Extension::RepairedRtpStreamId, audio_on: true, video_on: true },
        ),
        Option::None,
        Option::None,
        Option::None,
    ]
}

/// When every index below `j` misses and `neg[j]` carries `id`, `j` is found.
proof fn lemma_find_neg_id_at(neg: Seq<(u8, Extension)>, id: u8, j: int)
    requires
        0 <= j < neg.len(),
        neg[j].0 == id,
        forall|t: int| 0 <= t < j ==> neg[t].0 != id,
    ensures
        find_neg_id(neg, id) == j,
    decreases j,
{
    if j > 0 {
        assert(forall|t: int| 0 <= t < j - 1 ==> neg.drop_first()[t] == neg[t + 1]);
        assert(neg.drop_first()[j - 1] == neg[j]);
        lemma_find_neg_id_at(neg.drop_first(), id, j - 1);
    }
}

/// When no entry carries `id`, nothing is found.
proof fn lemma_find_neg_id_none(neg: Seq<(u8, Extension)>, id: u8)
    requires
        forall|t: int| 0 <= t < neg.len() ==> neg[t].0 != id,
    ensures
        find_neg_id(neg, id) == -1,
    decreases neg.len(),
{
    if neg.len() > 0 {
        assert(forall|t: int| 0 <= t < neg.len() - 1 ==> neg.drop_first()[t] == neg[t + 1]);
        lemma_find_neg_id_none(neg.drop_first(), id);
    }
}

/// When every slot below `i` misses and slot `i` holds `ext`, `i` is found.
proof fn lemma_find_ext_at(entries: Seq<Option<MapEntry>>, ext: Extension, i: int)
    requires
        0 <= i < entries.len(),
        entries[i] matches Option::Some(e) && e.ext == ext,
        forall|k: int|
            0 <= k < i ==> !((#[trigger] entries[k]) matches Option::Some(e) && e.ext == ext),
    ensures
        find_ext(entries, ext) == i,
    decreases i,
{
    if i > 0 {
        assert(forall|k: int| 0 <= k < i - 1 ==> entries.drop_first()[k] == entries[k + 1]);
        assert(entries.drop_first()[i - 1] == entries[i]);
        lemma_find_ext_at(entries.drop_first(), ext, i - 1);
    }
}

/// When no slot holds `ext`, nothing is found.
proof fn lemma_find_ext_none(entries: Seq<Option<MapEntry>>, ext: Extension)
    requires
        forall|k: int|
            0 <= k < entries.len() ==> !((#[trigger] entries[k]) matches Option::Some(e) && e.ext
                == ext),
    ensures
        find_ext(entries, ext) == -1,
    decreases entries.len(),
{
    if entries.len() > 0 {
        assert(forall|k: int|
            0 <= k < entries.len() - 1 ==> entries.drop_first()[k] == entries[k + 1]);
        lemma_find_ext_none(entries.drop_first(), ext);
    }
}

/// After both sides adopt one negotiated list for a kind, they report the
/// same `(id, extension)` pairs for that kind, whatever maps they started
/// from: the negotiated kind's view of an applied map depends on the list
/// alone.
pub proof fn lemma_negotiated_agreement(
    a: Seq<Option<MapEntry>>,
    b: Seq<Option<MapEntry>>,
    neg: Seq<(u8, Extension)>,
    audio: bool,
    n: int,
)
    requires
        a.len() == b.len(),
        0 <= n <= a.len(),
    ensures
        iter_spec(applied(a, neg, audio), audio, n) == iter_spec(applied(b, neg, audio), audio, n),
    decreases n,
{
    if n > 0 {
        lemma_negotiated_agreement(a, b, neg, audio, n - 1);
        let sa = applied(a, neg, audio)[n - 1];
        let sb = applied(b, neg, audio)[n - 1];
        assert(sa == applied_slot(a, neg, audio, n - 1));
        assert(sb == applied_slot(b, neg, audio, n - 1));
        let j = find_neg_id(neg, n as u8);
        if j >= 0 {
            assert(sa matches Option::Some(e) && kind_on(e, audio) && e.ext == neg[j].1);
            assert(sb matches Option::Some(e) && kind_on(e, audio) && e.ext == neg[j].1);
        } else {
            assert(match sa {
                Option::Some(e) => !kind_on(e, audio),
                Option::None => true,
            });
            assert(match sb {
                Option::Some(e) => !kind_on(e, audio),
                Option::None => true,
            });
        }
    }
}

} // verus!
