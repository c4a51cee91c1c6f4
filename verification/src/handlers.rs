//! Packet handlers: the decision core of the broadcast orchestrator.
//!
//! Each handler is a pure function from the sender's transient connection
//! state, the decoded packet and the owning room's registry to the
//! registry's next state and the packets owed in reply. The surrounding
//! server authenticates the sender, holds the room's lock for the duration
//! of a call, and performs the sends afterwards.

use vstd::prelude::*;

use crate::alist;
use crate::data::{
    copy_vec, AssociatedPlayerData, AssociatedPlayerMetadata, ChatMessageBroadcastPacket,
    CustomItem, LevelDataPacket, LevelId, LevelPlayerMetadataPacket, PacketHandlingError,
    PlayerAccountData, PlayerDataPacket, PlayerProfilesPacket, VoiceBroadcastPacket,
    ACCOUNT_ID_SIZE, LENGTH_PREFIX_SIZE, MAX_VOICE_PACKET_SIZE, PACKET_MARGIN, PER_PLAYER_MARGIN,
};
use crate::level::{
    collect_records, lemma_collect_records_wf, spec_join, spec_leave, upsert_data, upsert_meta,
    views_of, LevelManager, LevelManagerPlayer, LevelView, PlayerView,
};

verus! {

/// Upper bound on a level's membership that the broadcast buffer
/// arithmetic assumes; a room holds nowhere near this many connections.
pub const MAX_LEVEL_PLAYERS: usize = 65536;

/// Transient state of one connection. Only the owning connection's task
/// writes it; the room lock never covers it.
pub struct ConnectionState {
    pub account_id: i32,
    pub level_id: LevelId,
    pub on_unlisted_level: bool,
}

/// The records a broadcast may be sent to, out of those a level resolves
/// to: everyone but the sender, and invisible players only for a
/// moderator.
pub open spec fn visible_filter(s: Seq<PlayerView>, me: i32, is_mod: bool) -> Seq<PlayerView>
    decreases s.len(),
{
    if s.len() == 0 {
        Seq::<PlayerView>::empty()
    } else {
        let rest = visible_filter(s.drop_last(), me, is_mod);
        let p = s.last();
        if p.account_id != me && (!p.is_invisible || is_mod) {
            rest.push(p)
        } else {
            rest
        }
    }
}

/// Exclusion law of the broadcast filter: it never yields the querying
/// account, never yields an invisible player to a non-moderator, and
/// yields only records of the list it filters.
pub proof fn lemma_visible_filter_sound(s: Seq<PlayerView>, me: i32, is_mod: bool)
    ensures
        forall|i: int| 0 <= i < visible_filter(s, me, is_mod).len()
            ==> (#[trigger] visible_filter(s, me, is_mod)[i]).account_id != me,
        forall|i: int| 0 <= i < visible_filter(s, me, is_mod).len()
            ==> ((#[trigger] visible_filter(s, me, is_mod)[i]).is_invisible ==> is_mod),
        forall|i: int| 0 <= i < visible_filter(s, me, is_mod).len()
            ==> s.contains(#[trigger] visible_filter(s, me, is_mod)[i]),
        visible_filter(s, me, is_mod).len() <= s.len(),
    decreases s.len(),
{
    if s.len() > 0 {
        lemma_visible_filter_sound(s.drop_last(), me, is_mod);
        let rest = visible_filter(s.drop_last(), me, is_mod);
        let vf = visible_filter(s, me, is_mod);
        assert forall|i: int| 0 <= i < vf.len() implies s.contains(#[trigger] vf[i]) by {
            if i < rest.len() {
                assert(rest[i] == vf[i]);
                assert(s.drop_last().contains(rest[i]));
                let j = choose|j: int|
                    0 <= j < s.drop_last().len() && s.drop_last()[j] == rest[i];
                assert(s[j] == vf[i]);
            } else {
                assert(vf[i] == s.last());
                assert(s[s.len() - 1] == vf[i]);
            }
        }
    }
}

/// A filtered prefix is never longer than the filtered whole.
pub proof fn lemma_visible_filter_take_le(s: Seq<PlayerView>, me: i32, is_mod: bool, i: int)
    requires
        0 <= i <= s.len(),
    ensures
        visible_filter(s.take(i), me, is_mod).len() <= visible_filter(s, me, is_mod).len(),
    decreases s.len() - i,
{
    if i < s.len() {
        assert(s.take(i + 1).drop_last() =~= s.take(i));
        assert(s.take(i + 1).last() == s[i]);
        lemma_visible_filter_take_le(s, me, is_mod, i + 1);
    } else {
        assert(s.take(i) =~= s);
    }
}

/// The eligible broadcast recipients of a level, as record views.
pub open spec fn eligible_players(
    m: LevelManager,
    level_id: LevelId,
    me: i32,
    is_mod: bool,
) -> Seq<PlayerView> {
    match m.lookup_level(level_id) {
        Some(lv) => visible_filter(collect_records(m, lv.members), me, is_mod),
        None => Seq::<PlayerView>::empty(),
    }
}

/// The records of the eligible broadcast recipients on a level, in
/// membership order: every colocated player with a record other than the
/// querying account, invisible ones included only for a moderator.
pub fn visible_players_on_level(
    m: &LevelManager,
    level_id: LevelId,
    me: i32,
    is_mod: bool,
) -> (r: Vec<LevelManagerPlayer>)
    requires
        m.wf(),
    ensures
        views_of(r@) == eligible_players(*m, level_id, me, is_mod),
        forall|i: int| 0 <= i < r@.len() ==> (#[trigger] r@[i]).account_id != me,
        forall|i: int| 0 <= i < r@.len() ==> ((#[trigger] r@[i]).is_invisible ==> is_mod),
        forall|i: int| 0 <= i < r@.len() ==> (#[trigger] r@[i])@.wf(),
{
    let all = m.for_each_player_on_level(level_id);
    let ghost records = views_of(all@);
    let mut out: Vec<LevelManagerPlayer> = Vec::new();
    let mut i: usize = 0;
    while i < all.len()
        invariant
            i <= all@.len(),
            records == views_of(all@),
            views_of(out@) =~= visible_filter(records.take(i as int), me, is_mod),
        decreases all@.len() - i,
    {
        let p = &all[i];
        if p.account_id != me && (!p.is_invisible || is_mod) {
            out.push(p.clone());
        }
        i = i + 1;
        proof {
            assert(records.take(i as int).drop_last() =~= records.take(i as int - 1));
            assert(records.take(i as int).last() == records[i as int - 1]);
            assert(records[i as int - 1] == all@[i as int - 1]@);
            assert(views_of(out@) =~= visible_filter(records.take(i as int), me, is_mod));
        }
    }
    proof {
        assert(records.take(records.len() as int) =~= records);
        let elig = eligible_players(*m, level_id, me, is_mod);
        match m.lookup_level(level_id) {
            Some(lv) => {
                assert(records == collect_records(*m, lv.members));
            },
            None => {
                assert(records =~= Seq::<PlayerView>::empty());
                assert(visible_filter(records, me, is_mod) =~= Seq::<PlayerView>::empty());
            },
        }
        lemma_visible_filter_sound(records, me, is_mod);
        lemma_collect_records_wf(*m, match m.lookup_level(level_id) {
            Some(lv) => lv.members,
            None => Seq::<i32>::empty(),
        });
        assert forall|j: int| 0 <= j < out@.len() implies (#[trigger] out@[j]).account_id != me
            && (out@[j].is_invisible ==> is_mod) && out@[j]@.wf() by {
            assert(views_of(out@)[j] == out@[j]@);
            assert(visible_filter(records, me, is_mod)[j] == out@[j]@);
            if m.lookup_level(level_id) is Some {
                assert(records.contains(views_of(out@)[j]));
                let l = choose|l: int| 0 <= l < records.len() && records[l] == out@[j]@;
                assert(collect_records(*m, m.lookup_level(level_id).unwrap().members)[l]
                    == out@[j]@);
            }
        }
    }
    out
}

/// Membership-map transition of a connection moving from one level marker
/// to another; the zero sentinel on either side means "no level".
pub open spec fn spec_move(
    m: Map<LevelId, Seq<i32>>,
    from: LevelId,
    to: LevelId,
    account_id: i32,
) -> Map<LevelId, Seq<i32>> {
    let m1 = if from != 0 {
        spec_leave(m, from, account_id)
    } else {
        m
    };
    if to != 0 {
        spec_join(m1, to, account_id)
    } else {
        m1
    }
}

/// Level join: record the unlisted hint and the new level marker on the
/// connection, then move the account out of its previous level (if any)
/// and into the new one (if any) under the room lock the caller holds.
pub fn handle_level_join(
    m: &mut LevelManager,
    conn: &mut ConnectionState,
    level_id: LevelId,
    unlisted: bool,
)
    requires
        old(m).wf(),
    ensures
        final(m).wf(),
        final(m).players_kv() == old(m).players_kv(),
        final(conn).account_id == old(conn).account_id,
        final(conn).level_id == level_id,
        final(conn).on_unlisted_level == unlisted,
        final(m).membership() == spec_move(
            old(m).membership(),
            old(conn).level_id,
            level_id,
            old(conn).account_id,
        ),
        level_id != 0 ==> final(m).lookup_level(level_id) is Some
            && final(m).lookup_level(level_id).unwrap().unlisted == unlisted,
{
    conn.on_unlisted_level = unlisted;
    let old_level = conn.level_id;
    conn.level_id = level_id;
    if old_level != 0 {
        m.remove_from_level(old_level, conn.account_id);
    }
    if level_id != 0 {
        m.add_to_level(level_id, conn.account_id, unlisted);
    }
}

/// Level leave: clear the connection's level marker and remove the
/// account from that level's membership when it had one.
pub fn handle_level_leave(m: &mut LevelManager, conn: &mut ConnectionState)
    requires
        old(m).wf(),
    ensures
        final(m).wf(),
        final(m).players_kv() == old(m).players_kv(),
        final(conn).account_id == old(conn).account_id,
        final(conn).level_id == 0,
        final(conn).on_unlisted_level == old(conn).on_unlisted_level,
        final(m).membership() == spec_move(
            old(m).membership(),
            old(conn).level_id,
            0,
            old(conn).account_id,
        ),
{
    let old_level = conn.level_id;
    conn.level_id = 0;
    if old_level != 0 {
        m.remove_from_level(old_level, conn.account_id);
    }
}

/// Voice broadcast: wrap the bounded payload in an envelope naming the
/// sender; the caller fans it out to the level.
pub fn handle_voice(account_id: i32, data: Vec<u8>) -> (r: VoiceBroadcastPacket)
    requires
        data@.len() <= MAX_VOICE_PACKET_SIZE,
    ensures
        r.player_id == account_id,
        r.data@ == data@,
{
    VoiceBroadcastPacket { player_id: account_id, data }
}

/// Chat broadcast: wrap the message in an envelope naming the sender;
/// an empty message is silently dropped.
pub fn handle_chat_message(account_id: i32, message: String) -> (r: Option<
    ChatMessageBroadcastPacket,
>)
    ensures
        message@.len() == 0 ==> r is None,
        message@.len() > 0 ==> (r matches Some(p) && p.player_id == account_id && p.message@
            == message@),
{
    if message.as_str().is_empty() {
        None
    } else {
        Some(ChatMessageBroadcastPacket { player_id: account_id, message })
    }
}

/// The wire size the eligible recipients' states measure up to: each
/// state blob plus the account id beside it.
pub open spec fn estimated_state_size(s: Seq<PlayerView>) -> int
    decreases s.len(),
{
    if s.len() == 0 {
        0
    } else {
        estimated_state_size(s.drop_last()) + s.last().data.len() + ACCOUNT_ID_SIZE
    }
}

/// The (account id, state blob) pairs of a record-view list.
pub open spec fn data_pairs_of(s: Seq<PlayerView>) -> Seq<(i32, Seq<u8>)> {
    Seq::new(s.len(), |i: int| (s[i].account_id, s[i].data))
}

/// The (account id, state blob) pairs a broadcast packet carries.
pub open spec fn assoc_data_views(v: Seq<AssociatedPlayerData>) -> Seq<(i32, Seq<u8>)> {
    Seq::new(v.len(), |i: int| (v[i].account_id, v[i].data@))
}

/// The (account id, metadata blob) pairs of a record-view list.
pub open spec fn meta_pairs_of(s: Seq<PlayerView>) -> Seq<(i32, Seq<u8>)> {
    Seq::new(s.len(), |i: int| (s[i].account_id, s[i].meta))
}

/// The (account id, metadata blob) pairs a metadata packet carries.
pub open spec fn assoc_meta_views(v: Seq<AssociatedPlayerMetadata>) -> Seq<(i32, Seq<u8>)> {
    Seq::new(v.len(), |i: int| (v[i].account_id, v[i].data@))
}

/// The sender's record after a player-data packet: the state blob always
/// replaced, the metadata blob too when the packet carries one.
pub open spec fn sender_after_upserts(
    prev: Option<PlayerView>,
    account_id: i32,
    packet: PlayerDataPacket,
) -> PlayerView {
    let after = upsert_data(prev, account_id, packet.data@);
    match packet.meta {
        Some(pm) => upsert_meta(Some(after), account_id, pm@),
        None => after,
    }
}

/// The sender's level after a player-data packet: its item overrides run
/// through the packet's counter changes, everything else untouched.
pub open spec fn level_after_changes(
    prev: Option<LevelView>,
    packet: PlayerDataPacket,
) -> Option<LevelView> {
    match prev {
        None => None,
        Some(lv) => Some(LevelView {
            custom_items: if packet.counter_changes@.len() > 0 {
                crate::level::apply_changes(lv.custom_items, packet.counter_changes@)
            } else {
                lv.custom_items
            },
            ..lv
        }),
    }
}

/// What one locked pass over the level produced for the sender.
pub struct PlayerDataResponse {
    /// How many eligible recipients the broadcast has.
    pub recipients: usize,
    /// The state broadcast owed to the level, if any.
    pub level_data: Option<LevelDataPacket>,
    /// Bytes to pre-allocate for serializing `level_data`; zero for the
    /// zero-recipient packet, which needs no pre-sized buffer.
    pub buffer_size: u64,
    /// The metadata reply owed to the sender, if the packet asked for one.
    pub metadata: Option<LevelPlayerMetadataPacket>,
}

/// The outputs a player-data packet is owed, judged against the registry
/// state the handler left behind.
pub open spec fn player_data_outputs(
    m: LevelManager,
    level_id: LevelId,
    me: i32,
    is_mod: bool,
    had_meta: bool,
    resp: PlayerDataResponse,
) -> bool {
    let elig = eligible_players(m, level_id, me, is_mod);
    let items = match m.lookup_level(level_id) {
        Some(lv) => lv.custom_items,
        None => Seq::<CustomItem>::empty(),
    };
    &&& resp.recipients == elig.len()
    // no recipients: no pre-sized broadcast; the item overrides, if any,
    // still go out in a zero-player packet
    &&& elig.len() == 0 ==> {
        &&& resp.buffer_size == 0
        &&& if items.len() > 0 {
            resp.level_data matches Some(ld) && ld.players@.len() == 0 && (ld.custom_items
                matches Some(ci) && ci@ == items)
        } else {
            resp.level_data is None
        }
        &&& resp.metadata is None
    }
    // recipients: a single pre-sized broadcast listing exactly their
    // states, the measure-then-fill buffer size, and the metadata reply
    // when asked for
    &&& elig.len() > 0 ==> {
        &&& resp.level_data matches Some(ld) && assoc_data_views(ld.players@) == data_pairs_of(
            elig,
        ) && (if items.len() > 0 {
            ld.custom_items matches Some(ci) && ci@ == items
        } else {
            ld.custom_items is None
        })
        &&& resp.buffer_size == LENGTH_PREFIX_SIZE + estimated_state_size(elig) + elig.len()
            * PER_PLAYER_MARGIN + PACKET_MARGIN
        &&& if had_meta {
            resp.metadata matches Some(mp) && assoc_meta_views(mp.players@) == meta_pairs_of(elig)
        } else {
            resp.metadata is None
        }
    }
}

/// Player data update: reject a sender who is in no level; otherwise,
/// under one room-lock scope, upsert the sender's state (and metadata, if
/// carried), run the packet's counter changes on the level, measure the
/// eligible recipients, and fill the broadcast packet sized from that
/// measure — writing no more entries than were measured.
pub fn handle_player_data(
    m: &mut LevelManager,
    account_id: i32,
    level_id: LevelId,
    is_mod: bool,
    packet: &PlayerDataPacket,
) -> (r: Result<PlayerDataResponse, PacketHandlingError>)
    requires
        old(m).wf(),
        packet.data.wf(),
        packet.meta matches Some(pm) ==> pm.wf(),
        old(m).lookup_level(level_id) matches Some(lv) ==> lv.members.len() <= MAX_LEVEL_PLAYERS,
    ensures
        final(m).wf(),
        r is Err <==> level_id == 0,
        level_id == 0 ==> *final(m) == *old(m) && (r matches Err(e) && e
            == PacketHandlingError::UnexpectedPlayerData),
        level_id != 0 ==> final(m).lookup_player(account_id) == Some(sender_after_upserts(
            old(m).lookup_player(account_id),
            account_id,
            *packet,
        )),
        level_id != 0 ==> forall|a: i32|
            a != account_id ==> #[trigger] final(m).lookup_player(a) == old(m).lookup_player(a),
        level_id != 0 ==> final(m).lookup_level(level_id) == level_after_changes(
            old(m).lookup_level(level_id),
            *packet,
        ),
        level_id != 0 ==> forall|l: LevelId|
            l != level_id ==> #[trigger] final(m).lookup_level(l) == old(m).lookup_level(l),
        level_id != 0 ==> (r matches Ok(resp) && player_data_outputs(
            *final(m),
            level_id,
            account_id,
            is_mod,
            packet.meta is Some,
            resp,
        )),
{
    if level_id == 0 {
        return Err(PacketHandlingError::UnexpectedPlayerData);
    }

    // upsert the sender's state
    m.set_player_data(account_id, &packet.data);
    let ghost m1 = *m;

    // run the packet's item-id changes on the level
    if packet.counter_changes.len() > 0 {
        m.run_counter_actions_on_level(level_id, &packet.counter_changes);
    }
    let ghost m2 = *m;

    // upsert the sender's metadata, if the packet carries one
    let has_meta: bool;
    match &packet.meta {
        Some(pm) => {
            m.set_player_meta(account_id, pm);
            has_meta = true;
        },
        None => {
            has_meta = false;
        },
    }

    proof {
        assert forall|a: i32| a != account_id implies #[trigger] m.lookup_player(a) == old(
            m,
        ).lookup_player(a) by {
            assert(m2.players_kv() == m1.players_kv());
            assert(m2.lookup_player(a) == m1.lookup_player(a));
            assert(m1.lookup_player(a) == old(m).lookup_player(a));
            assert(m.lookup_player(a) == m2.lookup_player(a));
        }
        assert(m2.lookup_player(account_id) == m1.lookup_player(account_id));
        assert(m1.levels_kv() == old(m).levels_kv());
        assert(m.levels_kv() == m2.levels_kv());
        assert forall|l: LevelId| l != level_id implies #[trigger] m.lookup_level(l) == old(
            m,
        ).lookup_level(l) by {
            assert(m1.lookup_level(l) == old(m).lookup_level(l));
            assert(m2.lookup_level(l) == m1.lookup_level(l));
            assert(m.lookup_level(l) == m2.lookup_level(l));
        }
    }

    // measure: the eligible recipients, their metadata, and the bytes
    // their states will need
    let elig_vec = visible_players_on_level(m, level_id, account_id, is_mod);
    let count = elig_vec.len();
    let ghost elig = eligible_players(*m, level_id, account_id, is_mod);
    proof {
        assert(views_of(elig_vec@) == elig);
        assert(elig.len() == count);
        if count > 0 {
            if m.lookup_level(level_id) is None {
                assert(elig =~= Seq::<PlayerView>::empty());
            }
            let members = m.lookup_level(level_id).unwrap().members;
            lemma_collect_records_wf(*m, members);
            lemma_visible_filter_sound(collect_records(*m, members), account_id, is_mod);
            assert(count <= members.len());
            assert(count <= MAX_LEVEL_PLAYERS);
        }
    }

    if count == 0 {
        let mut ld: Option<LevelDataPacket> = None;
        match m.get_level(level_id) {
            Some(level) => {
                if level.custom_items.len() > 0 {
                    ld = Some(LevelDataPacket {
                        players: Vec::new(),
                        custom_items: Some(copy_vec(&level.custom_items)),
                    });
                }
            },
            None => {},
        }
        return Ok(PlayerDataResponse {
            recipients: 0,
            level_data: ld,
            buffer_size: 0,
            metadata: None,
        });
    }

    // the estimate of the recipients' encoded states
    let mut est: u64 = 0;
    let mut i: usize = 0;
    while i < elig_vec.len()
        invariant
            i <= elig_vec@.len(),
            views_of(elig_vec@) == elig,
            elig.len() <= MAX_LEVEL_PLAYERS,
            forall|j: int| 0 <= j < elig_vec@.len() ==> (#[trigger] elig_vec@[j])@.wf(),
            est == estimated_state_size(elig.take(i as int)),
            est <= i * 4100,
        decreases elig_vec@.len() - i,
    {
        let sz = elig_vec[i].data.encoded_size();
        proof {
            assert(elig_vec@[i as int]@.wf());
            assert(sz <= 4096);
            assert(i < MAX_LEVEL_PLAYERS);
            assert(est <= 65536 * 4100) by (nonlinear_arith)
                requires est <= i * 4100, i < 65536,
            {}
            assert(elig.take(i as int + 1).drop_last() =~= elig.take(i as int));
            assert(elig.take(i as int + 1).last() == elig[i as int]);
            assert(elig[i as int] == elig_vec@[i as int]@);
        }
        est = est + sz as u64 + ACCOUNT_ID_SIZE;
        i = i + 1;
    }
    proof {
        assert(elig.take(elig.len() as int) =~= elig);
    }

    // the metadata reply, when asked for
    let mut metas: Vec<AssociatedPlayerMetadata> = Vec::new();
    if has_meta {
        let mut k: usize = 0;
        while k < elig_vec.len()
            invariant
                k <= elig_vec@.len(),
                views_of(elig_vec@) == elig,
                metas@.len() == k,
                forall|j: int| 0 <= j < k ==> (#[trigger] metas@[j]).account_id
                    == elig[j].account_id && metas@[j].data@ == elig[j].meta,
            decreases elig_vec@.len() - k,
        {
            let am = elig_vec[k].to_associated_meta();
            proof {
                assert(elig[k as int] == elig_vec@[k as int]@);
                assert(am.account_id == elig[k as int].account_id);
                assert(am.data@ == elig[k as int].meta);
            }
            metas.push(am);
            k = k + 1;
        }
        proof {
            assert(assoc_meta_views(metas@) =~= meta_pairs_of(elig));
        }
    }

    // fill: re-walk the membership writing exactly `count` matching
    // entries — the cap guards against the membership changing between
    // the measure and the fill, though within one lock scope it cannot
    let all = m.for_each_player_on_level(level_id);
    let ghost records = views_of(all@);
    proof {
        if m.lookup_level(level_id) is None {
            assert(elig =~= Seq::<PlayerView>::empty());
        }
        assert(records == collect_records(*m, m.lookup_level(level_id).unwrap().members));
        assert(visible_filter(records, account_id, is_mod) == elig);
    }
    let mut out: Vec<AssociatedPlayerData> = Vec::new();
    let mut w: usize = 0;
    while w < all.len()
        invariant
            w <= all@.len(),
            records == views_of(all@),
            visible_filter(records, account_id, is_mod) == elig,
            elig.len() == count,
            out@.len() == visible_filter(records.take(w as int), account_id, is_mod).len(),
            forall|j: int| 0 <= j < out@.len() ==> (#[trigger] out@[j]).account_id
                == visible_filter(records.take(w as int), account_id, is_mod)[j].account_id
                && out@[j].data@ == visible_filter(records.take(w as int), account_id, is_mod)[
                j
            ].data,
        decreases all@.len() - w,
    {
        let p = &all[w];
        let eligible_p = p.account_id != account_id && (!p.is_invisible || is_mod);
        let ghost fw = visible_filter(records.take(w as int), account_id, is_mod);
        proof {
            assert(records.take(w as int + 1).drop_last() =~= records.take(w as int));
            assert(records.take(w as int + 1).last() == records[w as int]);
            assert(records[w as int] == all@[w as int]@);
            assert(all@[w as int]@.account_id == p.account_id);
            assert(all@[w as int]@.is_invisible == p.is_invisible);
            if eligible_p {
                lemma_visible_filter_take_le(records, account_id, is_mod, w as int + 1);
                assert(visible_filter(records.take(w as int + 1), account_id, is_mod)
                    == fw.push(all@[w as int]@));
                assert(out@.len() < count);
            } else {
                assert(visible_filter(records.take(w as int + 1), account_id, is_mod) == fw);
            }
        }
        if eligible_p && out.len() < count {
            let ad = p.to_associated_data();
            proof {
                assert(ad.account_id == all@[w as int]@.account_id);
                assert(ad.data@ == all@[w as int]@.data);
            }
            out.push(ad);
        }
        w = w + 1;
    }
    proof {
        assert(records.take(records.len() as int) =~= records);
        assert(assoc_data_views(out@) =~= data_pairs_of(elig));
    }

    // the level's item overrides ride along when present
    let mut custom: Option<Vec<CustomItem>> = None;
    match m.get_level(level_id) {
        Some(level) => {
            if level.custom_items.len() > 0 {
                custom = Some(copy_vec(&level.custom_items));
            }
        },
        None => {},
    }

    let buffer_size = LENGTH_PREFIX_SIZE + est + (count as u64) * PER_PLAYER_MARGIN
        + PACKET_MARGIN;

    let metadata = if has_meta {
        Some(LevelPlayerMetadataPacket { players: metas })
    } else {
        None
    };

    Ok(PlayerDataResponse {
        recipients: count,
        level_data: Some(LevelDataPacket { players: out, custom_items: custom }),
        buffer_size,
        metadata,
    })
}

/// The external profile directory, modelled as data: the caller builds it
/// from the profile collaborator and hands it to the profile handler.
pub struct ProfileStore {
    profiles: Vec<PlayerAccountData>,
}

/// The profile a lookup yields to a caller of the given privilege: hidden
/// profiles are served to moderators only.
pub open spec fn visible_profile(
    store: ProfileStore,
    account_id: i32,
    is_mod: bool,
) -> Option<crate::data::ProfileView> {
    match store.lookup(account_id) {
        Some(p) => if !p.hidden || is_mod {
            Some(p)
        } else {
            None
        },
        None => None,
    }
}

impl ProfileStore {
    /// The directory as a keyed entry list.
    pub closed spec fn kv(self) -> Seq<(i32, crate::data::ProfileView)> {
        Seq::new(self.profiles@.len(), |i: int| (self.profiles@[i].account_id, self.profiles@[i]@))
    }

    /// The profile stored for an account, if any.
    pub open spec fn lookup(self, account_id: i32) -> Option<crate::data::ProfileView> {
        alist::get(self.kv(), account_id)
    }

    pub open spec fn wf(self) -> bool {
        alist::distinct_keys(self.kv())
    }

    pub fn new() -> (r: Self)
        ensures
            r.wf(),
            forall|a: i32| (#[trigger] r.lookup(a)) is None,
    {
        let r = ProfileStore { profiles: Vec::new() };
        proof {
            alist::lemma_get_props(r.kv());
        }
        r
    }

    /// Store a profile, replacing any prior one for the account.
    pub fn add(&mut self, p: PlayerAccountData)
        requires
            old(self).wf(),
        ensures
            final(self).wf(),
            final(self).lookup(p.account_id) == Some(p@),
            forall|a: i32|
                a != p.account_id ==> #[trigger] final(self).lookup(a) == old(self).lookup(a),
    {
        let mut i: usize = 0;
        while i < self.profiles.len()
            invariant
                *self == *old(self),
                self.wf(),
                i <= self.profiles@.len(),
                forall|j: int|
                    0 <= j < i ==> (#[trigger] self.profiles@[j]).account_id != p.account_id,
            decreases self.profiles@.len() - i,
        {
            if self.profiles[i].account_id == p.account_id {
                proof {
                    alist::lemma_get_update(self.kv(), i as int, p@);
                }
                let ghost old_kv = self.kv();
                let ghost pv = p@;
                self.profiles.set(i, p);
                proof {
                    assert(old_kv[i as int].0 == pv.account_id);
                    assert(self.kv() =~= old_kv.update(i as int, (old_kv[i as int].0, pv)));
                    assert forall|a: i32| a != pv.account_id
                        implies self.lookup(a) == old(self).lookup(a) by {
                        assert(alist::get(old_kv.update(i as int, (old_kv[i as int].0, pv)), a)
                            == alist::get(old_kv, a));
                    }
                }
                return;
            }
            i = i + 1;
        }
        proof {
            alist::lemma_get_push(self.kv(), p.account_id, p@);
        }
        let ghost old_kv = self.kv();
        let ghost pv = p@;
        self.profiles.push(p);
        proof {
            assert(self.kv() =~= old_kv.push((pv.account_id, pv)));
            assert forall|a: i32| a != pv.account_id
                implies self.lookup(a) == old(self).lookup(a) by {
                assert(alist::get(old_kv.push((pv.account_id, pv)), a) == alist::get(old_kv, a));
            }
        }
    }

    /// The profile served for an account to a caller of the given
    /// privilege, or absence.
    pub fn get_player_account_data(&self, account_id: i32, is_mod: bool) -> (r: Option<
        PlayerAccountData,
    >)
        requires
            self.wf(),
        ensures
            match r {
                Some(d) => visible_profile(*self, account_id, is_mod) == Some(d@),
                None => visible_profile(*self, account_id, is_mod) is None,
            },
    {
        let mut i: usize = 0;
        while i < self.profiles.len()
            invariant
                self.wf(),
                i <= self.profiles@.len(),
                forall|j: int|
                    0 <= j < i ==> (#[trigger] self.profiles@[j]).account_id != account_id,
            decreases self.profiles@.len() - i,
        {
            if self.profiles[i].account_id == account_id {
                proof {
                    alist::lemma_get_index(self.kv(), account_id, i as int);
                }
                let p = &self.profiles[i];
                if !p.hidden || is_mod {
                    return Some(p.clone());
                } else {
                    return None;
                }
            }
            i = i + 1;
        }
        proof {
            alist::lemma_get_some_index(self.kv(), account_id);
        }
        None
    }
}

/// The profiles a level's players resolve to, in membership order: every
/// record other than the requester's whose profile the directory serves,
/// absentees omitted.
pub open spec fn profiles_of(
    records: Seq<PlayerView>,
    store: ProfileStore,
    me: i32,
    is_mod: bool,
) -> Seq<crate::data::ProfileView>
    decreases records.len(),
{
    if records.len() == 0 {
        Seq::<crate::data::ProfileView>::empty()
    } else {
        let rest = profiles_of(records.drop_last(), store, me, is_mod);
        let rec = records.last();
        if rec.account_id != me && visible_profile(store, rec.account_id, is_mod) is Some {
            rest.push(visible_profile(store, rec.account_id, is_mod).unwrap())
        } else {
            rest
        }
    }
}

/// The views of a profile list.
pub open spec fn profile_views(v: Seq<PlayerAccountData>) -> Seq<crate::data::ProfileView> {
    Seq::new(v.len(), |i: int| v[i]@)
}

/// The records a level resolves to, or none for an unknown level.
pub open spec fn level_records(m: LevelManager, level_id: LevelId) -> Seq<PlayerView> {
    match m.lookup_level(level_id) {
        Some(lv) => collect_records(m, lv.members),
        None => Seq::<PlayerView>::empty(),
    }
}

/// Profile request: for a single nonzero account, serve exactly that
/// profile or nothing; for zero ("everyone on my level"), serve the
/// profiles of the requester's colocated players.
pub fn handle_request_profiles(
    m: &LevelManager,
    store: &ProfileStore,
    account_id: i32,
    level_id: LevelId,
    requested: i32,
    is_mod: bool,
) -> (r: Result<Option<PlayerProfilesPacket>, PacketHandlingError>)
    requires
        m.wf(),
        store.wf(),
    ensures
        r is Err <==> level_id == 0,
        level_id == 0 ==> (r matches Err(e) && e == PacketHandlingError::UnexpectedPlayerData),
        level_id != 0 && requested != 0 ==> (r matches Ok(opt) && match visible_profile(
            *store,
            requested,
            is_mod,
        ) {
            Some(p) => opt matches Some(pkt) && profile_views(pkt.players@) == seq![p],
            None => opt is None,
        }),
        level_id != 0 && requested == 0 ==> (r matches Ok(opt) && opt matches Some(pkt)
            && profile_views(pkt.players@) == profiles_of(
            level_records(*m, level_id),
            *store,
            account_id,
            is_mod,
        )),
{
    if level_id == 0 {
        return Err(PacketHandlingError::UnexpectedPlayerData);
    }

    // a single requested player: the fast path sized for one element
    if requested != 0 {
        match store.get_player_account_data(requested, is_mod) {
            Some(d) => {
                let ghost dv = d@;
                let mut players: Vec<PlayerAccountData> = Vec::new();
                players.push(d);
                proof {
                    assert(profile_views(players@) =~= seq![dv]);
                }
                return Ok(Some(PlayerProfilesPacket { players }));
            },
            None => {
                return Ok(None);
            },
        }
    }

    let all = m.for_each_player_on_level(level_id);
    let ghost records = views_of(all@);
    proof {
        assert(records == level_records(*m, level_id));
    }
    let mut players: Vec<PlayerAccountData> = Vec::new();
    let mut i: usize = 0;
    while i < all.len()
        invariant
            i <= all@.len(),
            records == views_of(all@),
            store.wf(),
            profile_views(players@) =~= profiles_of(
                records.take(i as int),
                *store,
                account_id,
                is_mod,
            ),
        decreases all@.len() - i,
    {
        let p = &all[i];
        if p.account_id != account_id {
            match store.get_player_account_data(p.account_id, is_mod) {
                Some(d) => {
                    players.push(d);
                },
                None => {},
            }
        }
        i = i + 1;
        proof {
            assert(records.take(i as int).drop_last() =~= records.take(i as int - 1));
            assert(records.take(i as int).last() == records[i as int - 1]);
            assert(records[i as int - 1] == all@[i as int - 1]@);
            assert(profile_views(players@) =~= profiles_of(
                records.take(i as int),
                *store,
                account_id,
                is_mod,
            ));
        }
    }
    proof {
        assert(records.take(records.len() as int) =~= records);
    }
    Ok(Some(PlayerProfilesPacket { players }))
}

} // verus!
