//! Per-room level registry.
//!
//! Two independent tables scoped to one room: player identity to last-known
//! state and metadata, and level identity to membership, visibility hint,
//! item overrides and switch scheduler. The registry is pure data: the
//! caller imposes concurrency by holding the room's lock around every call.

use vstd::prelude::*;

use crate::alist;
use crate::data::{
    copy_vec, AssociatedPlayerData, AssociatedPlayerMetadata, BorrowedAssociatedPlayerData,
    BorrowedAssociatedPlayerMetadata, CounterAction, CounterChange, CustomItem, LevelId,
    PlayerData, PlayerMetadata, SwitchData,
};
use crate::switch::{next_switch_post, SwitchManager, SwitchView};

verus! {

/// Mathematical view of one player record.
pub ghost struct PlayerView {
    pub account_id: i32,
    pub data: Seq<u8>,
    pub meta: Seq<u8>,
    pub is_invisible: bool,
}

impl PlayerView {
    /// Both blobs stay within the fixed encoded-size bound.
    pub open spec fn wf(self) -> bool {
        self.data.len() <= crate::data::MAX_ENCODED_DATA_SIZE
            && self.meta.len() <= crate::data::MAX_ENCODED_DATA_SIZE
    }
}

/// One player record: identity, last-known state and metadata blobs, and
/// the invisible-to-non-moderators flag.
pub struct LevelManagerPlayer {
    pub account_id: i32,
    pub data: PlayerData,
    pub meta: PlayerMetadata,
    pub is_invisible: bool,
}

impl View for LevelManagerPlayer {
    type V = PlayerView;

    open spec fn view(&self) -> PlayerView {
        PlayerView {
            account_id: self.account_id,
            data: self.data@,
            meta: self.meta@,
            is_invisible: self.is_invisible,
        }
    }
}

impl LevelManagerPlayer {
    pub fn to_associated_data(&self) -> (r: AssociatedPlayerData)
        ensures
            r.account_id == self.account_id,
            r.data@ == self@.data,
    {
        AssociatedPlayerData { account_id: self.account_id, data: self.data.clone() }
    }

    pub fn to_borrowed_associated_data(&self) -> (r: BorrowedAssociatedPlayerData)
        ensures
            r.account_id == self.account_id,
            r.data@ == self@.data,
    {
        BorrowedAssociatedPlayerData { account_id: self.account_id, data: &self.data }
    }

    pub fn to_associated_meta(&self) -> (r: AssociatedPlayerMetadata)
        ensures
            r.account_id == self.account_id,
            r.data@ == self@.meta,
    {
        AssociatedPlayerMetadata { account_id: self.account_id, data: self.meta.clone() }
    }

    pub fn to_borrowed_associated_meta(&self) -> (r: BorrowedAssociatedPlayerMetadata)
        ensures
            r.account_id == self.account_id,
            r.data@ == self@.meta,
    {
        BorrowedAssociatedPlayerMetadata { account_id: self.account_id, data: &self.meta }
    }
}

impl Clone for LevelManagerPlayer {
    fn clone(&self) -> (r: Self)
        ensures
            r@ == self@,
    {
        LevelManagerPlayer {
            account_id: self.account_id,
            data: self.data.clone(),
            meta: self.meta.clone(),
            is_invisible: self.is_invisible,
        }
    }
}

/// Mathematical view of one level record.
pub ghost struct LevelView {
    pub members: Seq<i32>,
    pub unlisted: bool,
    pub custom_items: Seq<CustomItem>,
    pub switch: SwitchView,
}

/// No two item overrides share an item id.
pub open spec fn distinct_item_ids(items: Seq<CustomItem>) -> bool {
    forall|i: int, j: int| 0 <= i < j < items.len() ==> items[i].item_id != items[j].item_id
}

impl LevelView {
    /// A registered level always has members, each listed once, a
    /// duplicate-free override table and a well-formed scheduler history.
    pub open spec fn wf(self) -> bool {
        &&& self.members.len() > 0
        &&& forall|i: int, j: int|
            0 <= i < j < self.members.len() ==> self.members[i] != self.members[j]
        &&& distinct_item_ids(self.custom_items)
        &&& self.switch.wf()
    }
}

/// One level record: ordered membership (insertion order), the unlisted
/// visibility hint, the per-level item overrides and the switch scheduler.
pub struct Level {
    pub players: Vec<i32>,
    pub unlisted: bool,
    pub custom_items: Vec<CustomItem>,
    pub switch_manager: SwitchManager,
}

impl View for Level {
    type V = LevelView;

    open spec fn view(&self) -> LevelView {
        LevelView {
            members: self.players@,
            unlisted: self.unlisted,
            custom_items: self.custom_items@,
            switch: self.switch_manager@,
        }
    }
}

impl Clone for Level {
    fn clone(&self) -> (r: Self)
        ensures
            r@ == self@,
    {
        Level {
            players: copy_vec(&self.players),
            unlisted: self.unlisted,
            custom_items: copy_vec(&self.custom_items),
            switch_manager: self.switch_manager.clone(),
        }
    }
}

/// A level record keyed by its identity.
struct LevelEntry {
    level_id: LevelId,
    level: Level,
}

/// The registry of one room: player records and level records.
pub struct LevelManager {
    players: Vec<LevelManagerPlayer>,
    levels: Vec<LevelEntry>,
}

impl LevelManager {
    /// The player table as a keyed entry list.
    pub closed spec fn players_kv(self) -> Seq<(i32, PlayerView)> {
        Seq::new(self.players@.len(), |i: int| (self.players@[i].account_id, self.players@[i]@))
    }

    /// The level table as a keyed entry list.
    pub closed spec fn levels_kv(self) -> Seq<(i64, LevelView)> {
        Seq::new(self.levels@.len(), |i: int| (self.levels@[i].level_id, self.levels@[i].level@))
    }

    /// The record stored for an account, if any.
    pub open spec fn lookup_player(self, account_id: i32) -> Option<PlayerView> {
        alist::get(self.players_kv(), account_id)
    }

    /// The record stored for a level, if any.
    pub open spec fn lookup_level(self, level_id: LevelId) -> Option<LevelView> {
        alist::get(self.levels_kv(), level_id)
    }

    /// Level identity to membership, as a finite map.
    pub open spec fn membership(self) -> Map<LevelId, Seq<i32>> {
        Map::new(
            |l: LevelId| self.lookup_level(l) is Some,
            |l: LevelId| self.lookup_level(l).unwrap().members,
        )
    }

    /// Registry invariant: both tables are keyed uniquely, every stored
    /// blob is within the size bound, the zero level sentinel is never
    /// registered, and every level record is well formed — in particular
    /// never empty.
    pub open spec fn wf(self) -> bool {
        &&& alist::distinct_keys(self.players_kv())
        &&& alist::distinct_keys(self.levels_kv())
        &&& forall|i: int|
            0 <= i < self.players_kv().len() ==> (#[trigger] self.players_kv()[i]).1.wf()
        &&& forall|i: int|
            0 <= i < self.levels_kv().len()
                ==> (#[trigger] self.levels_kv()[i]).0 != 0 && self.levels_kv()[i].1.wf()
    }

    /// Every stored record of a well-formed registry is well formed.
    pub proof fn lemma_lookup_wf(self)
        requires
            self.wf(),
        ensures
            forall|a: i32| (#[trigger] self.lookup_player(a)) is Some
                ==> self.lookup_player(a).unwrap().wf()
                    && self.lookup_player(a).unwrap().account_id == a,
            forall|l: LevelId| (#[trigger] self.lookup_level(l)) is Some
                ==> self.lookup_level(l).unwrap().wf() && l != 0,
    {
        alist::lemma_get_props(self.players_kv());
        alist::lemma_get_props(self.levels_kv());
        assert forall|a: i32| (#[trigger] self.lookup_player(a)) is Some
            implies self.lookup_player(a).unwrap().wf()
                && self.lookup_player(a).unwrap().account_id == a by {
            let i = choose|i: int|
                0 <= i < self.players_kv().len() && self.players_kv()[i].0 == a;
            assert(self.lookup_player(a) == Some(self.players_kv()[i].1));
        }
        assert forall|l: LevelId| (#[trigger] self.lookup_level(l)) is Some
            implies self.lookup_level(l).unwrap().wf() && l != 0 by {
            let i = choose|i: int| 0 <= i < self.levels_kv().len() && self.levels_kv()[i].0 == l;
            assert(self.lookup_level(l) == Some(self.levels_kv()[i].1));
        }
    }

    /// A fresh, empty registry.
    pub fn new() -> (r: Self)
        ensures
            r.wf(),
            forall|a: i32| (#[trigger] r.lookup_player(a)) is None,
            forall|l: LevelId| (#[trigger] r.lookup_level(l)) is None,
            r.membership() == Map::<LevelId, Seq<i32>>::empty(),
    {
        let r = LevelManager { players: Vec::new(), levels: Vec::new() };
        proof {
            alist::lemma_get_props(r.players_kv());
            alist::lemma_get_props(r.levels_kv());
            assert(r.membership() =~= Map::<LevelId, Seq<i32>>::empty());
        }
        r
    }

    /// Index of the record stored for an account, scanning the table.
    fn find_player_index(&self, account_id: i32) -> (r: Option<usize>)
        ensures
            match r {
                Some(i) => i < self.players@.len() && self.players@[i as int].account_id
                    == account_id,
                None => forall|j: int|
                    0 <= j < self.players@.len()
                        ==> (#[trigger] self.players@[j]).account_id != account_id,
            },
    {
        let mut i: usize = 0;
        while i < self.players.len()
            invariant
                i <= self.players@.len(),
                forall|j: int|
                    0 <= j < i ==> (#[trigger] self.players@[j]).account_id != account_id,
            decreases self.players@.len() - i,
        {
            if self.players[i].account_id == account_id {
                return Some(i);
            }
            i = i + 1;
        }
        None
    }

    /// Index of the record stored for a level.
    fn find_level_index(&self, level_id: LevelId) -> (r: Option<usize>)
        ensures
            match r {
                Some(i) => i < self.levels@.len() && self.levels@[i as int].level_id == level_id,
                None => forall|j: int|
                    0 <= j < self.levels@.len()
                        ==> (#[trigger] self.levels@[j]).level_id != level_id,
            },
    {
        let mut i: usize = 0;
        while i < self.levels.len()
            invariant
                i <= self.levels@.len(),
                forall|j: int| 0 <= j < i ==> (#[trigger] self.levels@[j]).level_id != level_id,
            decreases self.levels@.len() - i,
        {
            if self.levels[i].level_id == level_id {
                return Some(i);
            }
            i = i + 1;
        }
        None
    }

    /// Detach the record stored for an account, leaving the rest unchanged.
    fn take_player(&mut self, account_id: i32) -> (r: Option<LevelManagerPlayer>)
        requires
            old(self).wf(),
        ensures
            final(self).wf(),
            final(self).levels@ == old(self).levels@,
            match r {
                Some(p) => {
                    &&& old(self).lookup_player(account_id) == Some(p@)
                    &&& p.account_id == account_id
                    &&& p@.wf()
                    &&& final(self).lookup_player(account_id) is None
                    &&& forall|a: i32|
                        a != account_id ==> #[trigger] final(self).lookup_player(a)
                            == old(self).lookup_player(a)
                    &&& final(self).players@.len() == old(self).players@.len() - 1
                },
                None => old(self).lookup_player(account_id) is None && *final(self) == *old(self),
            },
    {
        match self.find_player_index(account_id) {
            Some(i) => {
                proof {
                    alist::lemma_get_index(self.players_kv(), account_id, i as int);
                    alist::lemma_get_swap_remove(self.players_kv(), i as int);
                }
                let ghost old_kv = self.players_kv();
                let p = self.players.swap_remove(i);
                proof {
                    assert(self.players_kv() =~= alist::swap_remove_kv(old_kv, i as int));
                    assert(p@.wf()) by {
                        assert(old_kv[i as int].1 == p@);
                    }
                }
                Some(p)
            },
            None => {
                proof {
                    alist::lemma_get_some_index(self.players_kv(), account_id);
                }
                None
            },
        }
    }

    /// Store a record for an account not currently present.
    fn put_player(&mut self, p: LevelManagerPlayer)
        requires
            old(self).wf(),
            old(self).lookup_player(p.account_id) is None,
            p@.wf(),
        ensures
            final(self).wf(),
            final(self).levels_kv() == old(self).levels_kv(),
            final(self).lookup_player(p.account_id) == Some(p@),
            forall|a: i32|
                a != p.account_id ==> #[trigger] final(self).lookup_player(a)
                    == old(self).lookup_player(a),
            final(self).players@.len() == old(self).players@.len() + 1,
    {
        proof {
            alist::lemma_get_some_index(self.players_kv(), p.account_id);
            alist::lemma_get_push(self.players_kv(), p.account_id, p@);
        }
        let ghost old_kv = self.players_kv();
        let ghost pv = p@;
        self.players.push(p);
        proof {
            assert(self.players_kv() =~= old_kv.push((pv.account_id, pv)));
        }
    }

    /// Detach the record stored for a level, leaving the rest unchanged.
    fn take_level(&mut self, level_id: LevelId) -> (r: Option<LevelEntry>)
        requires
            old(self).wf(),
        ensures
            final(self).wf(),
            final(self).players@ == old(self).players@,
            match r {
                Some(e) => {
                    &&& old(self).lookup_level(level_id) == Some(e.level@)
                    &&& e.level_id == level_id
                    &&& level_id != 0
                    &&& e.level@.wf()
                    &&& final(self).lookup_level(level_id) is None
                    &&& forall|l: LevelId|
                        l != level_id ==> #[trigger] final(self).lookup_level(l)
                            == old(self).lookup_level(l)
                    &&& final(self).levels@.len() == old(self).levels@.len() - 1
                },
                None => old(self).lookup_level(level_id) is None && *final(self) == *old(self),
            },
    {
        match self.find_level_index(level_id) {
            Some(i) => {
                proof {
                    alist::lemma_get_index(self.levels_kv(), level_id, i as int);
                    alist::lemma_get_swap_remove(self.levels_kv(), i as int);
                }
                let ghost old_kv = self.levels_kv();
                let e = self.levels.swap_remove(i);
                proof {
                    assert(self.levels_kv() =~= alist::swap_remove_kv(old_kv, i as int));
                    assert(e.level@.wf() && e.level_id != 0) by {
                        assert(old_kv[i as int].1 == e.level@);
                        assert(old_kv[i as int].0 == e.level_id);
                    }
                }
                Some(e)
            },
            None => {
                proof {
                    alist::lemma_get_some_index(self.levels_kv(), level_id);
                }
                None
            },
        }
    }

    /// Store a record for a level not currently present.
    fn put_level(&mut self, e: LevelEntry)
        requires
            old(self).wf(),
            old(self).lookup_level(e.level_id) is None,
            e.level_id != 0,
            e.level@.wf(),
        ensures
            final(self).wf(),
            final(self).players@ == old(self).players@,
            final(self).lookup_level(e.level_id) == Some(e.level@),
            forall|l: LevelId|
                l != e.level_id ==> #[trigger] final(self).lookup_level(l)
                    == old(self).lookup_level(l),
            final(self).levels@.len() == old(self).levels@.len() + 1,
    {
        proof {
            alist::lemma_get_some_index(self.levels_kv(), e.level_id);
            alist::lemma_get_push(self.levels_kv(), e.level_id, e.level@);
        }
        let ghost old_kv = self.levels_kv();
        let ghost key = e.level_id;
        let ghost lv = e.level@;
        self.levels.push(e);
        proof {
            assert(self.levels_kv() =~= old_kv.push((key, lv)));
        }
    }

    /// The record stored for an account, if any.
    pub fn get_player_data(&self, account_id: i32) -> (r: Option<&LevelManagerPlayer>)
        requires
            self.wf(),
        ensures
            match r {
                Some(p) => self.lookup_player(account_id) == Some(p@),
                None => self.lookup_player(account_id) is None,
            },
    {
        match self.find_player_index(account_id) {
            Some(i) => {
                proof {
                    alist::lemma_get_index(self.players_kv(), account_id, i as int);
                }
                Some(&self.players[i])
            },
            None => {
                proof {
                    alist::lemma_get_some_index(self.players_kv(), account_id);
                }
                None
            },
        }
    }

    /// Whether a record exists for the account.
    pub fn has_player(&self, account_id: i32) -> (r: bool)
        requires
            self.wf(),
        ensures
            r == (self.lookup_player(account_id) is Some),
    {
        self.get_player_data(account_id).is_some()
    }

    /// Number of player records in the room.
    pub fn get_total_player_count(&self) -> (r: usize)
        ensures
            r == self.players_kv().len(),
    {
        self.players.len()
    }

    /// Insert a fresh player record, overwriting any prior state for the
    /// account. Called at session start.
    pub fn create_player(&mut self, account_id: i32, invisible: bool)
        requires
            old(self).wf(),
        ensures
            final(self).wf(),
            final(self).levels_kv() == old(self).levels_kv(),
            final(self).lookup_player(account_id) == Some(PlayerView {
                account_id,
                data: Seq::<u8>::empty(),
                meta: Seq::<u8>::empty(),
                is_invisible: invisible,
            }),
            forall|a: i32|
                a != account_id ==> #[trigger] final(self).lookup_player(a)
                    == old(self).lookup_player(a),
    {
        let _ = self.take_player(account_id);
        self.put_player(LevelManagerPlayer {
            account_id,
            data: PlayerData::empty(),
            meta: PlayerMetadata::empty(),
            is_invisible: invisible,
        });
    }

    /// Remove the record for an account. Membership lists are left alone:
    /// callers leave levels first, and iteration tolerates a stale entry.
    pub fn remove_player(&mut self, account_id: i32)
        requires
            old(self).wf(),
        ensures
            final(self).wf(),
            final(self).levels_kv() == old(self).levels_kv(),
            final(self).lookup_player(account_id) is None,
            forall|a: i32|
                a != account_id ==> #[trigger] final(self).lookup_player(a)
                    == old(self).lookup_player(a),
    {
        let _ = self.take_player(account_id);
    }

    /// Set a player's state blob, creating the record if absent.
    pub fn set_player_data(&mut self, account_id: i32, data: &PlayerData)
        requires
            old(self).wf(),
            data.wf(),
        ensures
            final(self).wf(),
            final(self).levels_kv() == old(self).levels_kv(),
            final(self).lookup_player(account_id) == Some(upsert_data(
                old(self).lookup_player(account_id),
                account_id,
                data@,
            )),
            forall|a: i32|
                a != account_id ==> #[trigger] final(self).lookup_player(a)
                    == old(self).lookup_player(a),
    {
        match self.take_player(account_id) {
            Some(mut p) => {
                p.data = data.clone();
                self.put_player(p);
            },
            None => {
                self.put_player(LevelManagerPlayer {
                    account_id,
                    data: data.clone(),
                    meta: PlayerMetadata::empty(),
                    is_invisible: false,
                });
            },
        }
    }

    /// Set a player's metadata blob, creating the record if absent.
    pub fn set_player_meta(&mut self, account_id: i32, meta: &PlayerMetadata)
        requires
            old(self).wf(),
            meta.wf(),
        ensures
            final(self).wf(),
            final(self).levels_kv() == old(self).levels_kv(),
            final(self).lookup_player(account_id) == Some(upsert_meta(
                old(self).lookup_player(account_id),
                account_id,
                meta@,
            )),
            forall|a: i32|
                a != account_id ==> #[trigger] final(self).lookup_player(a)
                    == old(self).lookup_player(a),
    {
        match self.take_player(account_id) {
            Some(mut p) => {
                p.meta = meta.clone();
                self.put_player(p);
            },
            None => {
                self.put_player(LevelManagerPlayer {
                    account_id,
                    data: PlayerData::empty(),
                    meta: meta.clone(),
                    is_invisible: false,
                });
            },
        }
    }
}

impl LevelManager {
    /// The level record stored for an identity, if any.
    pub fn get_level(&self, level_id: LevelId) -> (r: Option<&Level>)
        requires
            self.wf(),
        ensures
            match r {
                Some(lv) => self.lookup_level(level_id) == Some(lv@),
                None => self.lookup_level(level_id) is None,
            },
    {
        match self.find_level_index(level_id) {
            Some(i) => {
                proof {
                    alist::lemma_get_index(self.levels_kv(), level_id, i as int);
                }
                Some(&self.levels[i].level)
            },
            None => {
                proof {
                    alist::lemma_get_some_index(self.levels_kv(), level_id);
                }
                None
            },
        }
    }

    /// Number of levels in the room.
    pub fn get_level_count(&self) -> (r: usize)
        ensures
            r == self.levels_kv().len(),
    {
        self.levels.len()
    }

    /// Member count of a level, or absence for an unknown level — a found
    /// level is never empty.
    pub fn get_player_count_on_level(&self, level_id: LevelId) -> (r: Option<usize>)
        requires
            self.wf(),
        ensures
            match r {
                Some(n) => self.lookup_level(level_id) is Some
                    && n == self.lookup_level(level_id).unwrap().members.len() && n > 0,
                None => self.lookup_level(level_id) is None,
            },
    {
        proof {
            self.lemma_lookup_wf();
        }
        match self.get_level(level_id) {
            Some(level) => Some(level.players.len()),
            None => None,
        }
    }

    /// Idempotent join: create the level on first join, append the account
    /// only if not already a member, and always refresh the unlisted flag
    /// to this call's value.
    pub fn add_to_level(&mut self, level_id: LevelId, account_id: i32, unlisted: bool)
        requires
            old(self).wf(),
            level_id != 0,
        ensures
            final(self).wf(),
            final(self).players_kv() == old(self).players_kv(),
            final(self).lookup_level(level_id) == Some(joined_level(
                old(self).lookup_level(level_id),
                account_id,
                unlisted,
            )),
            forall|l: LevelId|
                l != level_id ==> #[trigger] final(self).lookup_level(l)
                    == old(self).lookup_level(l),
            final(self).membership() == spec_join(old(self).membership(), level_id, account_id),
    {
        match self.take_level(level_id) {
            Some(mut e) => {
                let ghost old_members = e.level.players@;
                if !contains_id(&e.level.players, account_id) {
                    e.level.players.push(account_id);
                    proof {
                        assert forall|x: int, y: int|
                            0 <= x < y < e.level.players@.len()
                            implies e.level.players@[x] != e.level.players@[y] by {
                            if y == old_members.len() {
                                if old_members[x] == account_id {
                                    assert(old_members.contains(account_id));
                                }
                            }
                        }
                    }
                }
                e.level.unlisted = unlisted;
                self.put_level(e);
            },
            None => {
                let mut members: Vec<i32> = Vec::new();
                members.push(account_id);
                self.put_level(LevelEntry {
                    level_id,
                    level: Level {
                        players: members,
                        unlisted,
                        custom_items: Vec::new(),
                        switch_manager: SwitchManager::new(),
                    },
                });
                proof {
                    assert(seq![account_id] =~= Seq::<i32>::empty().push(account_id));
                }
            },
        }
        proof {
            assert(self.membership() =~= spec_join(
                old(self).membership(),
                level_id,
                account_id,
            ));
        }
    }

    /// Remove an account from a level's membership (no-op when absent) and
    /// delete the level record the moment its membership becomes empty.
    pub fn remove_from_level(&mut self, level_id: LevelId, account_id: i32)
        requires
            old(self).wf(),
        ensures
            final(self).wf(),
            final(self).players_kv() == old(self).players_kv(),
            match old(self).lookup_level(level_id) {
                Some(lv) => {
                    let rest = remove_member(lv.members, account_id);
                    if rest.len() == 0 {
                        final(self).lookup_level(level_id) is None
                    } else {
                        final(self).lookup_level(level_id) == Some(LevelView {
                            members: rest,
                            ..lv
                        })
                    }
                },
                None => final(self).lookup_level(level_id) is None,
            },
            forall|l: LevelId|
                l != level_id ==> #[trigger] final(self).lookup_level(l)
                    == old(self).lookup_level(l),
            final(self).membership() == spec_leave(old(self).membership(), level_id, account_id),
    {
        match self.take_level(level_id) {
            Some(mut e) => {
                let ghost lv = e.level@;
                match find_id(&e.level.players, account_id) {
                    Some(j) => {
                        e.level.players.remove(j);
                        proof {
                            assert(lv.members.contains(account_id)) by {
                                assert(lv.members[j as int] == account_id);
                            }
                            let j2 = choose|j2: int|
                                0 <= j2 < lv.members.len() && lv.members[j2] == account_id;
                            assert(j2 == j as int);
                            assert(e.level.players@ == remove_member(lv.members, account_id));
                        }
                    },
                    None => {
                        proof {
                            if lv.members.contains(account_id) {
                                let j2 = choose|j2: int|
                                    0 <= j2 < lv.members.len() && lv.members[j2] == account_id;
                                assert(false);
                            }
                            assert(remove_member(lv.members, account_id) == lv.members);
                        }
                    },
                }
                if e.level.players.len() > 0 {
                    self.put_level(e);
                }
            },
            None => {},
        }
        proof {
            assert(self.membership() =~= spec_leave(
                old(self).membership(),
                level_id,
                account_id,
            ));
        }
    }
}

/// Membership after an account's removal: the entry deleted where present,
/// untouched otherwise.
pub open spec fn remove_member(members: Seq<i32>, account_id: i32) -> Seq<i32> {
    if members.contains(account_id) {
        members.remove(choose|j: int| 0 <= j < members.len() && members[j] == account_id)
    } else {
        members
    }
}

/// The level record after a join.
pub open spec fn joined_level(prev: Option<LevelView>, account_id: i32, unlisted: bool) -> LevelView {
    match prev {
        Some(lv) => LevelView {
            members: if lv.members.contains(account_id) {
                lv.members
            } else {
                lv.members.push(account_id)
            },
            unlisted,
            ..lv
        },
        None => LevelView {
            members: Seq::<i32>::empty().push(account_id),
            unlisted,
            custom_items: Seq::<CustomItem>::empty(),
            switch: SwitchView {
                players: Seq::<i32>::empty(),
                history: Seq::<SwitchData>::empty(),
                last_death_ts: 0u64,
            },
        },
    }
}

/// Membership-map transition of a join.
pub open spec fn spec_join(m: Map<LevelId, Seq<i32>>, level_id: LevelId, account_id: i32) -> Map<
    LevelId,
    Seq<i32>,
> {
    let cur = if m.dom().contains(level_id) {
        m[level_id]
    } else {
        Seq::<i32>::empty()
    };
    m.insert(level_id, if cur.contains(account_id) {
        cur
    } else {
        cur.push(account_id)
    })
}

/// Membership-map transition of a leave.
pub open spec fn spec_leave(m: Map<LevelId, Seq<i32>>, level_id: LevelId, account_id: i32) -> Map<
    LevelId,
    Seq<i32>,
> {
    if !m.dom().contains(level_id) {
        m
    } else {
        let rest = remove_member(m[level_id], account_id);
        if rest.len() == 0 {
            m.remove(level_id)
        } else {
            m.insert(level_id, rest)
        }
    }
}

/// Whether a membership vector holds an account.
fn contains_id(v: &Vec<i32>, account_id: i32) -> (r: bool)
    ensures
        r == v@.contains(account_id),
{
    match find_id(v, account_id) {
        Some(j) => {
            proof {
                assert(v@[j as int] == account_id);
            }
            true
        },
        None => {
            proof {
                if v@.contains(account_id) {
                    let j = choose|j: int| 0 <= j < v@.len() && v@[j] == account_id;
                    assert(false);
                }
            }
            false
        },
    }
}

/// First index holding an account, if any.
fn find_id(v: &Vec<i32>, account_id: i32) -> (r: Option<usize>)
    ensures
        match r {
            Some(j) => j < v@.len() && v@[j as int] == account_id,
            None => forall|j: int| 0 <= j < v@.len() ==> v@[j] != account_id,
        },
{
    let mut i: usize = 0;
    while i < v.len()
        invariant
            i <= v@.len(),
            forall|j: int| 0 <= j < i ==> v@[j] != account_id,
        decreases v@.len() - i,
    {
        if v[i] == account_id {
            return Some(i);
        }
        i = i + 1;
    }
    None
}

/// The views of a sequence of player records.
pub open spec fn views_of(s: Seq<LevelManagerPlayer>) -> Seq<PlayerView> {
    Seq::new(s.len(), |i: int| s[i]@)
}

/// The records a membership list resolves to, in membership order,
/// skipping entries whose player record is missing.
pub open spec fn collect_records(m: LevelManager, ids: Seq<i32>) -> Seq<PlayerView>
    decreases ids.len(),
{
    if ids.len() == 0 {
        Seq::<PlayerView>::empty()
    } else {
        let rest = collect_records(m, ids.drop_last());
        match m.lookup_player(ids.last()) {
            Some(p) => rest.push(p),
            None => rest,
        }
    }
}

/// Every record a membership list resolves to is a stored record: well
/// formed, and no longer than the list itself.
pub proof fn lemma_collect_records_wf(m: LevelManager, ids: Seq<i32>)
    requires
        m.wf(),
    ensures
        collect_records(m, ids).len() <= ids.len(),
        forall|i: int| 0 <= i < collect_records(m, ids).len()
            ==> (#[trigger] collect_records(m, ids)[i]).wf(),
    decreases ids.len(),
{
    if ids.len() > 0 {
        lemma_collect_records_wf(m, ids.drop_last());
        m.lemma_lookup_wf();
    }
}

impl LevelManager {
    /// The player-record views stored in the table, in table order.
    pub open spec fn players_views(self) -> Seq<PlayerView> {
        Seq::new(self.players_kv().len(), |i: int| self.players_kv()[i].1)
    }

    /// All player records of the room, for a room-wide traversal. The
    /// order is the table's own and carries no meaning.
    pub fn for_each_player(&self) -> (r: Vec<LevelManagerPlayer>)
        ensures
            views_of(r@) == self.players_views(),
    {
        let mut out: Vec<LevelManagerPlayer> = Vec::new();
        let mut i: usize = 0;
        while i < self.players.len()
            invariant
                i <= self.players@.len(),
                out@.len() == i,
                forall|j: int| 0 <= j < i ==> (#[trigger] out@[j])@ == self.players@[j]@,
            decreases self.players@.len() - i,
        {
            let c = self.players[i].clone();
            proof {
                assert(c@ == self.players@[i as int]@);
            }
            out.push(c);
            i = i + 1;
        }
        proof {
            assert(views_of(out@) =~= self.players_views());
        }
        out
    }

    /// All level records of the room, keyed, for a room-wide traversal.
    /// The order is the table's own and carries no meaning.
    pub fn for_each_level(&self) -> (r: Vec<(LevelId, Level)>)
        ensures
            r@.len() == self.levels_kv().len(),
            forall|i: int| 0 <= i < r@.len()
                ==> (#[trigger] r@[i]).0 == self.levels_kv()[i].0
                    && r@[i].1@ == self.levels_kv()[i].1,
    {
        let mut out: Vec<(LevelId, Level)> = Vec::new();
        let mut i: usize = 0;
        while i < self.levels.len()
            invariant
                i <= self.levels@.len(),
                out@.len() == i,
                forall|j: int| 0 <= j < i
                    ==> (#[trigger] out@[j]).0 == self.levels_kv()[j].0
                        && out@[j].1@ == self.levels_kv()[j].1,
            decreases self.levels@.len() - i,
        {
            out.push((self.levels[i].level_id, self.levels[i].level.clone()));
            i = i + 1;
        }
        out
    }

    /// The records of the players on a level, in membership insertion
    /// order, skipping membership entries whose player record is missing.
    pub fn for_each_player_on_level(&self, level_id: LevelId) -> (r: Vec<LevelManagerPlayer>)
        requires
            self.wf(),
        ensures
            views_of(r@) == match self.lookup_level(level_id) {
                Some(lv) => collect_records(*self, lv.members),
                None => Seq::<PlayerView>::empty(),
            },
    {
        let mut out: Vec<LevelManagerPlayer> = Vec::new();
        match self.get_level(level_id) {
            Some(level) => {
                let ids = &level.players;
                let ghost members = self.lookup_level(level_id).unwrap().members;
                proof {
                    assert(ids@ == members);
                }
                let mut k: usize = 0;
                while k < ids.len()
                    invariant
                        self.wf(),
                        k <= ids@.len(),
                        ids@ == members,
                        views_of(out@) =~= collect_records(*self, ids@.take(k as int)),
                    decreases ids@.len() - k,
                {
                    let ghost pre = out@;
                    match self.get_player_data(ids[k]) {
                        Some(p) => {
                            out.push(p.clone());
                        },
                        None => {},
                    }
                    k = k + 1;
                    proof {
                        assert(ids@.take(k as int).drop_last() =~= ids@.take(k as int - 1));
                        assert(ids@.take(k as int).last() == ids@[k as int - 1]);
                        assert(views_of(out@) =~= collect_records(*self, ids@.take(k as int)));
                    }
                }
                proof {
                    assert(ids@.take(ids@.len() as int) =~= ids@);
                }
            },
            None => {},
        }
        out
    }

    /// Read access to a level's switch scheduler.
    pub fn get_switch_manager(&self, level_id: LevelId) -> (r: Option<&SwitchManager>)
        requires
            self.wf(),
        ensures
            match r {
                Some(sm) => self.lookup_level(level_id) is Some
                    && sm@ == self.lookup_level(level_id).unwrap().switch,
                None => self.lookup_level(level_id) is None,
            },
    {
        match self.find_level_index(level_id) {
            Some(i) => {
                proof {
                    alist::lemma_get_index(self.levels_kv(), level_id, i as int);
                }
                Some(&self.levels[i].level.switch_manager)
            },
            None => {
                proof {
                    alist::lemma_get_some_index(self.levels_kv(), level_id);
                }
                None
            },
        }
    }

    /// Refresh a level's switch scheduler with the current membership and
    /// answer a schedule query on it. Absence for an unknown level.
    pub fn get_next_switch_on_level(&mut self, level_id: LevelId, timestamp: u64) -> (r: Option<
        SwitchData,
    >)
        requires
            old(self).wf(),
        ensures
            final(self).wf(),
            final(self).players_kv() == old(self).players_kv(),
            forall|l: LevelId|
                l != level_id ==> #[trigger] final(self).lookup_level(l)
                    == old(self).lookup_level(l),
            match old(self).lookup_level(level_id) {
                None => r is None && final(self).lookup_level(level_id) is None,
                Some(lv) => {
                    &&& r is Some
                    &&& final(self).lookup_level(level_id) is Some
                    &&& {
                        let nlv = final(self).lookup_level(level_id).unwrap();
                        &&& nlv.members == lv.members
                        &&& nlv.unlisted == lv.unlisted
                        &&& nlv.custom_items == lv.custom_items
                        &&& next_switch_post(
                            SwitchView {
                                players: lv.members,
                                history: lv.switch.history,
                                last_death_ts: lv.switch.last_death_ts,
                            },
                            nlv.switch,
                            timestamp,
                            r.unwrap(),
                        )
                    }
                },
            },
    {
        match self.take_level(level_id) {
            Some(mut e) => {
                let fresh = copy_vec(&e.level.players);
                e.level.switch_manager.set_players(fresh);
                let sd = e.level.switch_manager.get_next_switch(timestamp);
                self.put_level(e);
                Some(sd)
            },
            None => None,
        }
    }

    /// Clear a level's generated switch schedule. Returns whether the
    /// level exists.
    pub fn reset_switch_on_level(&mut self, level_id: LevelId) -> (r: bool)
        requires
            old(self).wf(),
        ensures
            final(self).wf(),
            final(self).players_kv() == old(self).players_kv(),
            forall|l: LevelId|
                l != level_id ==> #[trigger] final(self).lookup_level(l)
                    == old(self).lookup_level(l),
            r == (old(self).lookup_level(level_id) is Some),
            match old(self).lookup_level(level_id) {
                None => final(self).lookup_level(level_id) is None,
                Some(lv) => final(self).lookup_level(level_id) == Some(LevelView {
                    switch: SwitchView {
                        players: lv.switch.players,
                        history: Seq::<SwitchData>::empty(),
                        last_death_ts: lv.switch.last_death_ts,
                    },
                    ..lv
                }),
            },
    {
        match self.take_level(level_id) {
            Some(mut e) => {
                e.level.switch_manager.reset();
                self.put_level(e);
                true
            },
            None => false,
        }
    }

    /// Apply a batch of counter-change instructions to a level's item
    /// overrides, in order. No-op for an unknown level.
    pub fn run_counter_actions_on_level(&mut self, level_id: LevelId, changes: &Vec<CounterChange>)
        requires
            old(self).wf(),
        ensures
            final(self).wf(),
            final(self).players_kv() == old(self).players_kv(),
            forall|l: LevelId|
                l != level_id ==> #[trigger] final(self).lookup_level(l)
                    == old(self).lookup_level(l),
            match old(self).lookup_level(level_id) {
                None => final(self).lookup_level(level_id) is None,
                Some(lv) => final(self).lookup_level(level_id) == Some(LevelView {
                    custom_items: apply_changes(lv.custom_items, changes@),
                    ..lv
                }),
            },
    {
        match self.take_level(level_id) {
            Some(mut e) => {
                let ghost orig = e.level.custom_items@;
                let ghost saved = e.level@;
                let ghost saved_id = e.level_id;
                let mut k: usize = 0;
                while k < changes.len()
                    invariant
                        k <= changes@.len(),
                        e.level.custom_items@ =~= apply_changes(orig, changes@.take(k as int)),
                        distinct_item_ids(e.level.custom_items@),
                        e.level.players@ == saved.members,
                        e.level.unlisted == saved.unlisted,
                        e.level.switch_manager@ == saved.switch,
                        e.level_id == saved_id,
                    decreases changes@.len() - k,
                {
                    let ghost pre = e.level.custom_items@;
                    let ch = changes[k];
                    match find_item(&e.level.custom_items, ch.item_id) {
                        Some(i) => {
                            let cur = e.level.custom_items[i].value;
                            let nv = apply_action_exec(cur, ch.action);
                            e.level.custom_items.set(
                                i,
                                CustomItem { item_id: ch.item_id, value: nv },
                            );
                            proof {
                                let i2 = choose|i2: int|
                                    0 <= i2 < pre.len() && pre[i2].item_id == ch.item_id;
                                assert(i2 == i as int);
                                assert(e.level.custom_items@ == apply_change(pre, ch));
                                assert forall|x: int, y: int|
                                    0 <= x < y < e.level.custom_items@.len()
                                    implies e.level.custom_items@[x].item_id
                                        != e.level.custom_items@[y].item_id by {
                                    assert(e.level.custom_items@[x].item_id == pre[x].item_id);
                                    assert(e.level.custom_items@[y].item_id == pre[y].item_id);
                                }
                            }
                        },
                        None => {
                            proof {
                                if exists|i2: int|
                                    0 <= i2 < pre.len() && pre[i2].item_id == ch.item_id {
                                    let i2 = choose|i2: int|
                                        0 <= i2 < pre.len() && pre[i2].item_id == ch.item_id;
                                    assert(false);
                                }
                            }
                            e.level.custom_items.push(
                                CustomItem { item_id: ch.item_id, value: apply_action_exec(0, ch.action) },
                            );
                            proof {
                                assert(e.level.custom_items@ == apply_change(pre, ch));
                                assert forall|x: int, y: int|
                                    0 <= x < y < e.level.custom_items@.len()
                                    implies e.level.custom_items@[x].item_id
                                        != e.level.custom_items@[y].item_id by {
                                    if y == pre.len() {
                                        assert(e.level.custom_items@[x].item_id == pre[x].item_id);
                                    } else {
                                        assert(e.level.custom_items@[x].item_id == pre[x].item_id);
                                        assert(e.level.custom_items@[y].item_id == pre[y].item_id);
                                    }
                                }
                            }
                        },
                    }
                    k = k + 1;
                    proof {
                        assert(changes@.take(k as int).drop_last() =~= changes@.take(k as int - 1));
                        assert(changes@.take(k as int).last() == changes@[k as int - 1]);
                    }
                }
                proof {
                    assert(changes@.take(changes@.len() as int) =~= changes@);
                }
                self.put_level(e);
            },
            None => {},
        }
    }
}

/// An item value clamped into the i32 range after adding a delta.
pub open spec fn clamp_add(cur: i32, d: i32) -> i32 {
    if cur + d > i32::MAX {
        i32::MAX
    } else if cur + d < i32::MIN {
        i32::MIN
    } else {
        (cur + d) as i32
    }
}

/// The item value an instruction produces from the current one.
pub open spec fn apply_action(cur: i32, a: CounterAction) -> i32 {
    match a {
        CounterAction::Add(d) => clamp_add(cur, d),
        CounterAction::Assign(v) => v,
    }
}

/// The override table after one instruction: the targeted item updated in
/// place, or appended with a starting value of zero.
pub open spec fn apply_change(items: Seq<CustomItem>, ch: CounterChange) -> Seq<CustomItem> {
    if exists|i: int| 0 <= i < items.len() && items[i].item_id == ch.item_id {
        let i = choose|i: int| 0 <= i < items.len() && items[i].item_id == ch.item_id;
        items.update(i, CustomItem { item_id: ch.item_id, value: apply_action(items[i].value, ch.action) })
    } else {
        items.push(CustomItem { item_id: ch.item_id, value: apply_action(0, ch.action) })
    }
}

/// The override table after a batch of instructions, applied in order.
pub open spec fn apply_changes(items: Seq<CustomItem>, changes: Seq<CounterChange>) -> Seq<
    CustomItem,
>
    decreases changes.len(),
{
    if changes.len() == 0 {
        items
    } else {
        apply_change(apply_changes(items, changes.drop_last()), changes.last())
    }
}

/// The clamped-add item value, computed in wider arithmetic.
fn apply_action_exec(cur: i32, a: CounterAction) -> (r: i32)
    ensures
        r == apply_action(cur, a),
{
    match a {
        CounterAction::Add(d) => {
            let s: i64 = cur as i64 + d as i64;
            if s > i32::MAX as i64 {
                i32::MAX
            } else if s < i32::MIN as i64 {
                i32::MIN
            } else {
                s as i32
            }
        },
        CounterAction::Assign(v) => v,
    }
}

/// First index holding an item id, if any.
fn find_item(v: &Vec<CustomItem>, item_id: i32) -> (r: Option<usize>)
    ensures
        match r {
            Some(j) => j < v@.len() && v@[j as int].item_id == item_id,
            None => forall|j: int| 0 <= j < v@.len() ==> (#[trigger] v@[j]).item_id != item_id,
        },
{
    let mut i: usize = 0;
    while i < v.len()
        invariant
            i <= v@.len(),
            forall|j: int| 0 <= j < i ==> (#[trigger] v@[j]).item_id != item_id,
        decreases v@.len() - i,
    {
        if v[i].item_id == item_id {
            return Some(i);
        }
        i = i + 1;
    }
    None
}

/// A join or leave at the membership-map level.
pub ghost enum RoomOp {
    Join { level_id: LevelId, account_id: i32 },
    Leave { level_id: LevelId, account_id: i32 },
}

/// One operation's membership-map transition.
pub open spec fn apply_op(m: Map<LevelId, Seq<i32>>, op: RoomOp) -> Map<LevelId, Seq<i32>> {
    match op {
        RoomOp::Join { level_id, account_id } => spec_join(m, level_id, account_id),
        RoomOp::Leave { level_id, account_id } => spec_leave(m, level_id, account_id),
    }
}

/// A sequence of operations applied in order.
pub open spec fn apply_ops(m: Map<LevelId, Seq<i32>>, ops: Seq<RoomOp>) -> Map<LevelId, Seq<i32>>
    decreases ops.len(),
{
    if ops.len() == 0 {
        m
    } else {
        apply_op(apply_ops(m, ops.drop_last()), ops.last())
    }
}

/// Each join adds an account not currently a member, each leave removes a
/// current member, and no operation touches the zero sentinel.
pub open spec fn valid_ops(m: Map<LevelId, Seq<i32>>, ops: Seq<RoomOp>) -> bool
    decreases ops.len(),
{
    if ops.len() == 0 {
        true
    } else {
        let prev = apply_ops(m, ops.drop_last());
        valid_ops(m, ops.drop_last()) && match ops.last() {
            RoomOp::Join { level_id, account_id } => level_id != 0 && !(prev.dom().contains(
                level_id,
            ) && prev[level_id].contains(account_id)),
            RoomOp::Leave { level_id, account_id } => prev.dom().contains(level_id)
                && prev[level_id].contains(account_id),
        }
    }
}

/// Number of joins targeting a level.
pub open spec fn count_joins(ops: Seq<RoomOp>, level_id: LevelId) -> int
    decreases ops.len(),
{
    if ops.len() == 0 {
        0
    } else {
        count_joins(ops.drop_last(), level_id) + match ops.last() {
            RoomOp::Join { level_id: l, .. } => if l == level_id {
                1int
            } else {
                0int
            },
            RoomOp::Leave { .. } => 0int,
        }
    }
}

/// Number of leaves targeting a level.
pub open spec fn count_leaves(ops: Seq<RoomOp>, level_id: LevelId) -> int
    decreases ops.len(),
{
    if ops.len() == 0 {
        0
    } else {
        count_leaves(ops.drop_last(), level_id) + match ops.last() {
            RoomOp::Leave { level_id: l, .. } => if l == level_id {
                1int
            } else {
                0int
            },
            RoomOp::Join { .. } => 0int,
        }
    }
}

/// A level's membership count in a map, zero when absent.
pub open spec fn level_count(m: Map<LevelId, Seq<i32>>, level_id: LevelId) -> int {
    if m.dom().contains(level_id) {
        m[level_id].len() as int
    } else {
        0
    }
}

/// All member lists of a map are duplicate-free.
pub open spec fn distinct_memberships(m: Map<LevelId, Seq<i32>>) -> bool {
    forall|l: LevelId| #[trigger] m.dom().contains(l)
        ==> forall|i: int, j: int| 0 <= i < j < m[l].len() ==> m[l][i] != m[l][j]
}

/// Membership counting law: for any valid sequence of joins and leaves
/// applied to an empty room, each level's membership count equals its
/// joins minus its leaves, and the level is registered exactly when that
/// count is nonzero.
pub proof fn lemma_join_leave_count(ops: Seq<RoomOp>, level_id: LevelId)
    requires
        valid_ops(Map::<LevelId, Seq<i32>>::empty(), ops),
    ensures
        level_count(apply_ops(Map::<LevelId, Seq<i32>>::empty(), ops), level_id) == count_joins(
            ops,
            level_id,
        ) - count_leaves(ops, level_id),
        apply_ops(Map::<LevelId, Seq<i32>>::empty(), ops).dom().contains(level_id) <==> count_joins(
            ops,
            level_id,
        ) - count_leaves(ops, level_id) != 0,
    decreases ops.len(),
{
    let e = Map::<LevelId, Seq<i32>>::empty();
    if ops.len() > 0 {
        lemma_join_leave_count(ops.drop_last(), level_id);
        let prev = apply_ops(e, ops.drop_last());
        let cur = apply_ops(e, ops);
        let cj = count_joins(ops.drop_last(), level_id);
        let cl = count_leaves(ops.drop_last(), level_id);
        match ops.last() {
            RoomOp::Join { level_id: l, account_id: a } => {
                let ms = if prev.dom().contains(l) {
                    prev[l]
                } else {
                    Seq::<i32>::empty()
                };
                assert(!ms.contains(a));
                assert(cur == prev.insert(l, ms.push(a)));
                if l == level_id {
                    assert(cur[level_id].len() == ms.len() + 1);
                } else {
                    assert(level_count(cur, level_id) == level_count(prev, level_id));
                }
            },
            RoomOp::Leave { level_id: l, account_id: a } => {
                assert(prev.dom().contains(l) && prev[l].contains(a));
                let rest = remove_member(prev[l], a);
                assert(rest.len() == prev[l].len() - 1);
                if l == level_id {
                    if rest.len() == 0 {
                        assert(cur == prev.remove(l));
                        assert(level_count(cur, level_id) == 0);
                    } else {
                        assert(cur == prev.insert(l, rest));
                    }
                } else {
                    assert(level_count(cur, level_id) == level_count(prev, level_id));
                }
            },
        }
    }
}

/// Idempotent join: joining the same (level, account) twice leaves the
/// membership map exactly as one join does; the unlisted flag meanwhile
/// follows the latest call, as `add_to_level` ensures.
pub proof fn lemma_join_idempotent(m: Map<LevelId, Seq<i32>>, level_id: LevelId, account_id: i32)
    ensures
        spec_join(spec_join(m, level_id, account_id), level_id, account_id) == spec_join(
            m,
            level_id,
            account_id,
        ),
{
    let m1 = spec_join(m, level_id, account_id);
    let cur = if m.dom().contains(level_id) {
        m[level_id]
    } else {
        Seq::<i32>::empty()
    };
    assert(m1[level_id].contains(account_id)) by {
        if cur.contains(account_id) {
        } else {
            assert(m1[level_id] == cur.push(account_id));
            assert(m1[level_id][cur.len() as int] == account_id);
        }
    }
    assert(spec_join(m1, level_id, account_id) =~= m1);
}

/// The membership map after leaving a batch of levels, in order.
pub open spec fn leave_all(m: Map<LevelId, Seq<i32>>, ls: Seq<LevelId>, account_id: i32) -> Map<
    LevelId,
    Seq<i32>,
>
    decreases ls.len(),
{
    if ls.len() == 0 {
        m
    } else {
        spec_leave(leave_all(m, ls.drop_last(), account_id), ls.last(), account_id)
    }
}

/// Removing one member from a duplicate-free list erases it.
proof fn lemma_remove_member(s: Seq<i32>, a: i32)
    requires
        forall|i: int, j: int| 0 <= i < j < s.len() ==> s[i] != s[j],
    ensures
        !remove_member(s, a).contains(a),
        forall|i: int, j: int|
            0 <= i < j < remove_member(s, a).len() ==> remove_member(s, a)[i] != remove_member(
                s,
                a,
            )[j],
        forall|x: i32| #[trigger] remove_member(s, a).contains(x) ==> s.contains(x),
{
    if s.contains(a) {
        let j = choose|j: int| 0 <= j < s.len() && s[j] == a;
        let r = s.remove(j);
        assert forall|i: int| 0 <= i < r.len() implies r[i] != a by {
            if i < j {
                assert(r[i] == s[i]);
            } else {
                assert(r[i] == s[i + 1]);
            }
        }
        if r.contains(a) {
            let i = choose|i: int| 0 <= i < r.len() && r[i] == a;
            assert(false);
        }
        assert forall|x: i32| #[trigger] r.contains(x) implies s.contains(x) by {
            let i = choose|i: int| 0 <= i < r.len() && r[i] == x;
            if i < j {
                assert(s[i] == x);
            } else {
                assert(s[i + 1] == x);
            }
        }
        assert forall|x: int, y: int| 0 <= x < y < r.len() implies r[x] != r[y] by {
            if y < j {
            } else if x < j {
                assert(r[x] == s[x] && r[y] == s[y + 1]);
            } else {
                assert(r[x] == s[x + 1] && r[y] == s[y + 1]);
            }
        }
    } else {
        if remove_member(s, a).contains(a) {
            let i = choose|i: int| 0 <= i < s.len() && s[i] == a;
            assert(false);
        }
    }
}

/// Round-trip removal law: after leaving every level that lists an
/// account — any order, each level once suffices — no membership entry
/// references the account any more. Removing the player record afterwards
/// (`remove_player`) then leaves the registry with no trace of it.
pub proof fn lemma_full_removal(m: Map<LevelId, Seq<i32>>, ls: Seq<LevelId>, account_id: i32)
    requires
        distinct_memberships(m),
        forall|l: LevelId|
            #[trigger] m.dom().contains(l) && m[l].contains(account_id) ==> ls.contains(l),
    ensures
        forall|l: LevelId|
            #[trigger] leave_all(m, ls, account_id).dom().contains(l)
                ==> !leave_all(m, ls, account_id)[l].contains(account_id),
    decreases ls.len(),
{
    lemma_leave_all_aux(m, ls, account_id);
    let m2 = leave_all(m, ls, account_id);
    assert forall|l: LevelId| #[trigger] m2.dom().contains(l)
        implies !m2[l].contains(account_id) by {
        if !ls.contains(l) {
            assert(m2[l] == m[l]);
            if m[l].contains(account_id) {
                assert(ls.contains(l));
            }
        }
    }
}

/// After the batch, a listed level no longer references the account, and
/// an unlisted one is untouched.
proof fn lemma_leave_all_aux(m: Map<LevelId, Seq<i32>>, ls: Seq<LevelId>, account_id: i32)
    requires
        distinct_memberships(m),
    ensures
        distinct_memberships(leave_all(m, ls, account_id)),
        forall|l: LevelId|
            #[trigger] leave_all(m, ls, account_id).dom().contains(l) ==> if ls.contains(l) {
                !leave_all(m, ls, account_id)[l].contains(account_id)
            } else {
                m.dom().contains(l) && leave_all(m, ls, account_id)[l] == m[l]
            },
    decreases ls.len(),
{
    if ls.len() > 0 {
        lemma_leave_all_aux(m, ls.drop_last(), account_id);
        let prev = leave_all(m, ls.drop_last(), account_id);
        let last = ls.last();
        let m2 = leave_all(m, ls, account_id);
        assert(m2 == spec_leave(prev, last, account_id));
        if prev.dom().contains(last) {
            lemma_remove_member(prev[last], account_id);
        }
        assert forall|l: LevelId| #[trigger] m2.dom().contains(l) implies if ls.contains(l) {
            !m2[l].contains(account_id)
        } else {
            m.dom().contains(l) && m2[l] == m[l]
        } by {
            if l == last {
                assert(prev.dom().contains(last));
                assert(m2[l] == remove_member(prev[last], account_id));
                assert(ls.contains(l)) by {
                    assert(ls[ls.len() - 1] == l);
                }
            } else {
                assert(m2[l] == prev[l]);
                assert(prev.dom().contains(l));
                if ls.contains(l) {
                    let i = choose|i: int| 0 <= i < ls.len() && ls[i] == l;
                    if ls.drop_last().contains(l) {
                    } else {
                        assert(i < ls.len() - 1);
                        assert(ls.drop_last()[i] == l);
                    }
                } else {
                    if ls.drop_last().contains(l) {
                        let i = choose|i: int|
                            0 <= i < ls.drop_last().len() && ls.drop_last()[i] == l;
                        assert(ls[i] == l);
                    }
                }
            }
        }
        assert forall|l: LevelId| #[trigger] m2.dom().contains(l)
            implies forall|i: int, j: int| 0 <= i < j < m2[l].len() ==> m2[l][i] != m2[l][j] by {
            if l != last {
                assert(m2[l] == prev[l]);
                assert(prev.dom().contains(l));
            }
        }
    }
}

/// The record after a state upsert: the blob replaced in place, or a fresh
/// record carrying it.
pub open spec fn upsert_data(prev: Option<PlayerView>, account_id: i32, data: Seq<u8>) -> PlayerView {
    match prev {
        Some(p) => PlayerView { data, ..p },
        None => PlayerView { account_id, data, meta: Seq::<u8>::empty(), is_invisible: false },
    }
}

/// The record after a metadata upsert.
pub open spec fn upsert_meta(prev: Option<PlayerView>, account_id: i32, meta: Seq<u8>) -> PlayerView {
    match prev {
        Some(p) => PlayerView { meta, ..p },
        None => PlayerView { account_id, data: Seq::<u8>::empty(), meta, is_invisible: false },
    }
}

} // verus!
