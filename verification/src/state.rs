//! The relay's shared world state: users, rooms, live sessions, the
//! presence index, trains, boarding requests and rides. The central
//! invariant: a connected user is listed in the presence set of exactly
//! the map its position names, display names are unique, and nobody
//! both waits for a train and rides one.
use vstd::prelude::*;

use crate::map::Position;
use crate::messages::{AccessMode, AccessPolicy};
use crate::text::{dec_digits, str_eq};

verus! {

/// Duplicate an optional string.
pub fn clone_opt_string(o: &Option<String>) -> (r: Option<String>)
    ensures
        r == *o,
{
    match o {
        Some(s) => Some(s.clone()),
        None => None,
    }
}

/// A known user, connected or not.
#[derive(Debug)]
pub struct UserState {
    pub user_id: String,
    pub pubkey: String,
    pub display_name: Option<String>,
    pub position: Position,
    pub x25519_pubkey: Option<String>,
}

impl Clone for UserState {
    fn clone(&self) -> (res: Self)
        ensures
            res == *self,
    {
        UserState {
            user_id: self.user_id.clone(),
            pubkey: self.pubkey.clone(),
            display_name: clone_opt_string(&self.display_name),
            position: self.position.clone(),
            x25519_pubkey: clone_opt_string(&self.x25519_pubkey),
        }
    }
}

/// A room and its settings.
#[derive(Debug)]
pub struct RoomState {
    pub room_id: String,
    pub owner_pubkey: Option<String>,
    pub price_xmr: String,
    pub for_sale: bool,
    pub access: AccessPolicy,
    pub display_name: Option<String>,
    pub door_color: Option<String>,
}

/// Field-wise sameness of two room records (lists compared by content).
pub open spec fn room_like(a: RoomState, b: RoomState) -> bool {
    &&& a.room_id == b.room_id
    &&& a.owner_pubkey == b.owner_pubkey
    &&& a.price_xmr == b.price_xmr
    &&& a.for_sale == b.for_sale
    &&& a.access.mode == b.access.mode
    &&& a.access.list@ == b.access.list@
    &&& a.display_name == b.display_name
    &&& a.door_color == b.door_color
}

impl Clone for RoomState {
    fn clone(&self) -> (res: Self)
        ensures
            room_like(res, *self),
    {
        RoomState {
            room_id: self.room_id.clone(),
            owner_pubkey: clone_opt_string(&self.owner_pubkey),
            price_xmr: self.price_xmr.clone(),
            for_sale: self.for_sale,
            access: self.access.clone(),
            display_name: clone_opt_string(&self.display_name),
            door_color: clone_opt_string(&self.door_color),
        }
    }
}

/// The live handle of a connected user's session.
#[derive(Debug)]
pub struct ClientHandle {
    pub user_id: String,
    pub pubkey: String,
}

impl Clone for ClientHandle {
    fn clone(&self) -> (res: Self)
        ensures
            res == *self,
    {
        ClientHandle { user_id: self.user_id.clone(), pubkey: self.pubkey.clone() }
    }
}

/// A train on the ring. Positions and speeds are in milli-tiles, so a
/// tick of milliseconds advances a whole number of them.
#[derive(Debug, Clone, Copy, PartialEq, Eq, Structural)]
pub struct TrainState {
    pub id: u32,
    pub x_milli: u64,
    pub speed_milli: u64,
    pub clockwise: bool,
}

/// A user waiting in a station for a train toward a destination.
#[derive(Debug, Clone, Copy, PartialEq, Eq, Structural)]
pub struct BoardingRequest {
    pub station_x: i64,
    pub destination_x: i64,
}

/// A user riding a train toward a destination.
#[derive(Debug, Clone, Copy, PartialEq, Eq, Structural)]
pub struct TrainRide {
    pub train_id: u32,
    pub destination_x: i64,
}

// ---- users ----

pub open spec fn has_user(s: Seq<UserState>, id: Seq<char>) -> bool {
    exists|i: int| 0 <= i < s.len() && #[trigger] s[i].user_id@ == id
}

/// The user record carrying `id` (meaningful under unique ids).
pub open spec fn spec_user(s: Seq<UserState>, id: Seq<char>) -> UserState {
    s[choose|i: int| 0 <= i < s.len() && #[trigger] s[i].user_id@ == id]
}

pub open spec fn has_pubkey(s: Seq<UserState>, pk: Seq<char>) -> bool {
    exists|i: int| 0 <= i < s.len() && #[trigger] s[i].pubkey@ == pk
}

/// The user record carrying signing key `pk`.
pub open spec fn spec_user_by_pubkey(s: Seq<UserState>, pk: Seq<char>) -> UserState {
    s[choose|i: int| 0 <= i < s.len() && #[trigger] s[i].pubkey@ == pk]
}

/// User ids and signing keys are unique.
pub open spec fn users_unique(s: Seq<UserState>) -> bool {
    &&& forall|i: int, j: int|
        0 <= i < s.len() && 0 <= j < s.len() && i != j ==> #[trigger] s[i].user_id@
            != #[trigger] s[j].user_id@
    &&& forall|i: int, j: int|
        0 <= i < s.len() && 0 <= j < s.len() && i != j ==> #[trigger] s[i].pubkey@
            != #[trigger] s[j].pubkey@
}

/// No two users share a display name.
pub open spec fn names_unique(s: Seq<UserState>) -> bool {
    forall|i: int, j: int|
        0 <= i < s.len() && 0 <= j < s.len() && i != j && #[trigger] s[i].display_name is Some
            && #[trigger] s[j].display_name is Some ==> s[i].display_name->0@
            != s[j].display_name->0@
}

/// Every stored position leaves room for a one-tile step.
pub open spec fn positions_ok(s: Seq<UserState>) -> bool {
    forall|i: int|
        0 <= i < s.len() ==> i32::MIN < #[trigger] s[i].position.x < i32::MAX && i32::MIN
            < s[i].position.y < i32::MAX
}

/// No user already carries a canonical id that a future user will get.
pub open spec fn fresh_ids_ok(s: Seq<UserState>, next: int) -> bool {
    forall|i: int, k: int|
        0 <= i < s.len() && k >= next ==> #[trigger] s[i].user_id@ != "u_"@ + #[trigger] dec_digits(
            k,
        )
}

/// The user at any index holding `id` is the user `id` names.
pub proof fn lemma_user_at(s: Seq<UserState>, id: Seq<char>, i: int)
    requires
        users_unique(s),
        0 <= i < s.len(),
        s[i].user_id@ == id,
    ensures
        has_user(s, id),
        spec_user(s, id) == s[i],
{
    assert(has_user(s, id));
    let j = choose|j: int| 0 <= j < s.len() && #[trigger] s[j].user_id@ == id;
    if i != j {
        assert(s[i].user_id@ != s[j].user_id@);
    }
}

pub proof fn lemma_user_by_pubkey_at(s: Seq<UserState>, pk: Seq<char>, i: int)
    requires
        users_unique(s),
        0 <= i < s.len(),
        s[i].pubkey@ == pk,
    ensures
        has_pubkey(s, pk),
        spec_user_by_pubkey(s, pk) == s[i],
{
    assert(has_pubkey(s, pk));
    let j = choose|j: int| 0 <= j < s.len() && #[trigger] s[j].pubkey@ == pk;
    if i != j {
        assert(s[i].pubkey@ != s[j].pubkey@);
    }
}

// ---- rooms ----

pub open spec fn has_room(s: Seq<RoomState>, id: Seq<char>) -> bool {
    exists|i: int| 0 <= i < s.len() && #[trigger] s[i].room_id@ == id
}

/// The room record carrying `id`.
pub open spec fn spec_room(s: Seq<RoomState>, id: Seq<char>) -> RoomState {
    s[choose|i: int| 0 <= i < s.len() && #[trigger] s[i].room_id@ == id]
}

pub open spec fn rooms_unique(s: Seq<RoomState>) -> bool {
    forall|i: int, j: int|
        0 <= i < s.len() && 0 <= j < s.len() && i != j ==> #[trigger] s[i].room_id@
            != #[trigger] s[j].room_id@
}

pub proof fn lemma_room_at(s: Seq<RoomState>, id: Seq<char>, i: int)
    requires
        rooms_unique(s),
        0 <= i < s.len(),
        s[i].room_id@ == id,
    ensures
        has_room(s, id),
        spec_room(s, id) == s[i],
{
    assert(has_room(s, id));
    let j = choose|j: int| 0 <= j < s.len() && #[trigger] s[j].room_id@ == id;
    if i != j {
        assert(s[i].room_id@ != s[j].room_id@);
    }
}

// ---- clients ----

pub open spec fn is_connected(s: Seq<ClientHandle>, id: Seq<char>) -> bool {
    exists|i: int| 0 <= i < s.len() && #[trigger] s[i].user_id@ == id
}

pub open spec fn clients_unique(s: Seq<ClientHandle>) -> bool {
    forall|i: int, j: int|
        0 <= i < s.len() && 0 <= j < s.len() && i != j ==> #[trigger] s[i].user_id@
            != #[trigger] s[j].user_id@
}

// ---- keyed association lists ----

pub open spec fn kv_unique<V>(s: Seq<(String, V)>) -> bool {
    forall|i: int, j: int|
        0 <= i < s.len() && 0 <= j < s.len() && i != j ==> #[trigger] s[i].0@ != #[trigger] s[j].0@
}

pub open spec fn kv_has<V>(s: Seq<(String, V)>, k: Seq<char>) -> bool {
    exists|i: int| 0 <= i < s.len() && #[trigger] s[i].0@ == k
}

/// The value stored under `k`, if any.
pub open spec fn kv_get<V>(s: Seq<(String, V)>, k: Seq<char>) -> Option<V> {
    if kv_has(s, k) {
        Some(s[choose|i: int| 0 <= i < s.len() && #[trigger] s[i].0@ == k].1)
    } else {
        None
    }
}

pub proof fn lemma_kv_at<V>(s: Seq<(String, V)>, k: Seq<char>, i: int)
    requires
        kv_unique(s),
        0 <= i < s.len(),
        s[i].0@ == k,
    ensures
        kv_has(s, k),
        kv_get(s, k) == Some(s[i].1),
{
    assert(kv_has(s, k));
    let j = choose|j: int| 0 <= j < s.len() && #[trigger] s[j].0@ == k;
    if i != j {
        assert(s[i].0@ != s[j].0@);
    }
}

/// Find the index of key `k` in an association list.
pub fn kv_find<V>(s: &Vec<(String, V)>, k: &str) -> (r: Option<usize>)
    ensures
        match r {
            Some(i) => i < s@.len() && s@[i as int].0@ == k@,
            None => !kv_has(s@, k@),
        },
{
    let mut i: usize = 0;
    let n = s.len();
    while i < n
        invariant
            i <= n,
            n == s@.len(),
            forall|j: int| 0 <= j < i ==> #[trigger] s@[j].0@ != k@,
        decreases n - i,
    {
        if str_eq(s[i].0.as_str(), k) {
            return Some(i);
        }
        i = i + 1;
    }
    None
}

/// Bind `k` to `v`, replacing any earlier binding.
pub fn kv_insert<V>(s: &mut Vec<(String, V)>, k: &str, v: V)
    requires
        kv_unique(old(s)@),
    ensures
        kv_unique(final(s)@),
        kv_get(final(s)@, k@) == Some(v),
        forall|q: Seq<char>| q != k@ ==> #[trigger] kv_get(final(s)@, q) == kv_get(old(s)@, q),
{
    let ghost olds = s@;
    match kv_find(s, k) {
        Some(i) => {
            s.set(i, (String::from_str(k), v));
            proof {
                let news = s@;
                assert(kv_unique(news)) by {
                    assert(forall|a: int| 0 <= a < news.len() ==> news[a].0@ == olds[a].0@);
                }
                lemma_kv_at(news, k@, i as int);
                assert forall|q: Seq<char>| q != k@ implies #[trigger] kv_get(news, q) == kv_get(
                    olds,
                    q,
                ) by {
                    assert(forall|a: int| 0 <= a < news.len() ==> news[a].0@ == olds[a].0@);
                    if kv_has(olds, q) {
                        let a = choose|a: int| 0 <= a < olds.len() && #[trigger] olds[a].0@ == q;
                        assert(news[a].0@ == q);
                        lemma_kv_at(news, q, a);
                        lemma_kv_at(olds, q, a);
                        assert(a != i as int);
                    } else {
                        assert(!kv_has(news, q)) by {
                            if kv_has(news, q) {
                                let a = choose|a: int|
                                    0 <= a < news.len() && #[trigger] news[a].0@ == q;
                                assert(olds[a].0@ == q || a == i as int);
                            }
                        }
                    }
                }
            }
        },
        None => {
            s.push((String::from_str(k), v));
            proof {
                let news = s@;
                let n = olds.len() as int;
                assert(kv_unique(news)) by {
                    assert(forall|a: int| 0 <= a < n ==> news[a] == olds[a]);
                    assert(news[n].0@ == k@);
                    assert(forall|a: int| 0 <= a < n ==> #[trigger] olds[a].0@ != k@);
                }
                lemma_kv_at(news, k@, n);
                assert forall|q: Seq<char>| q != k@ implies #[trigger] kv_get(news, q) == kv_get(
                    olds,
                    q,
                ) by {
                    assert(forall|a: int| 0 <= a < n ==> news[a] == olds[a]);
                    if kv_has(olds, q) {
                        let a = choose|a: int| 0 <= a < olds.len() && #[trigger] olds[a].0@ == q;
                        assert(news[a].0@ == q);
                        lemma_kv_at(news, q, a);
                        lemma_kv_at(olds, q, a);
                    } else {
                        assert(!kv_has(news, q)) by {
                            if kv_has(news, q) {
                                let a = choose|a: int|
                                    0 <= a < news.len() && #[trigger] news[a].0@ == q;
                                assert(a == n || olds[a].0@ == q);
                            }
                        }
                    }
                }
            }
        },
    }
}

/// Drop any binding of `k`.
pub fn kv_remove<V>(s: &mut Vec<(String, V)>, k: &str)
    requires
        kv_unique(old(s)@),
    ensures
        kv_unique(final(s)@),
        kv_get(final(s)@, k@) is None,
        forall|q: Seq<char>| q != k@ ==> #[trigger] kv_get(final(s)@, q) == kv_get(old(s)@, q),
{
    let ghost olds = s@;
    match kv_find(s, k) {
        Some(i) => {
            s.remove(i);
            proof {
                let news = s@;
                let n = olds.len() as int;
                assert(news =~= olds.remove(i as int));
                assert(forall|a: int| 0 <= a < i ==> news[a] == olds[a]);
                assert(forall|a: int| i <= a < news.len() ==> news[a] == olds[a + 1]);
                assert(kv_unique(news));
                assert(!kv_has(news, k@)) by {
                    if kv_has(news, k@) {
                        let a = choose|a: int| 0 <= a < news.len() && #[trigger] news[a].0@ == k@;
                        if a < i {
                            assert(olds[a].0@ == k@ && olds[i as int].0@ == k@);
                        } else {
                            assert(olds[a + 1].0@ == k@ && olds[i as int].0@ == k@);
                        }
                    }
                }
                assert forall|q: Seq<char>| q != k@ implies #[trigger] kv_get(news, q) == kv_get(
                    olds,
                    q,
                ) by {
                    if kv_has(olds, q) {
                        let a = choose|a: int| 0 <= a < olds.len() && #[trigger] olds[a].0@ == q;
                        assert(a != i as int);
                        if a < i {
                            assert(news[a].0@ == q);
                            lemma_kv_at(news, q, a);
                        } else {
                            assert(news[a - 1].0@ == q);
                            lemma_kv_at(news, q, a - 1);
                        }
                        lemma_kv_at(olds, q, a);
                    } else {
                        assert(!kv_has(news, q)) by {
                            if kv_has(news, q) {
                                let a = choose|a: int|
                                    0 <= a < news.len() && #[trigger] news[a].0@ == q;
                                if a < i {
                                    assert(olds[a].0@ == q);
                                } else {
                                    assert(olds[a + 1].0@ == q);
                                }
                            }
                        }
                    }
                }
            }
        },
        None => {
            proof {
                assert(s@ =~= olds);
            }
        },
    }
}

// ---- presence ----

/// `id` is listed as present on map `m`. The index binds each user to
/// at most one map; the world invariant keeps it in step with the
/// user's position.
pub open spec fn present_on(p: Seq<(String, String)>, id: Seq<char>, m: Seq<char>) -> bool {
    kv_get(p, id) matches Some(s) && s@ == m

}

} // verus!

use crate::money::format_xmr;
use crate::text::{lemma_digits_val_nonneg, parse_u64_str, spec_parse_uint, strip_prefix_str, u64_to_string};

verus! {

/// Milli-tiles around the whole ring.
pub const CIRC_MILLI: u64 = 4096000;

/// Train speed: 128 tiles per second, in milli-tiles per second.
pub const TRAIN_SPEED_MILLI: u64 = 128000;

/// The canonical digits of `k` carry the value `k`.
pub proof fn lemma_dec_digits_val(k: int)
    requires
        k >= 0,
    ensures
        crate::text::all_dec_digits(dec_digits(k)),
        crate::text::digits_val(dec_digits(k)) == k,
        dec_digits(k).len() >= 1,
        crate::text::is_dec_digit(dec_digits(k)[0]),
    decreases k,
{
    if k < 10 {
        assert(dec_digits(k) =~= seq![crate::text::digit_char(k)]);
        assert(dec_digits(k).drop_last() =~= Seq::<char>::empty());
        assert(crate::text::digits_val(Seq::<char>::empty()) == 0);
        assert(crate::text::digit_val(crate::text::digit_char(k)) == k);
    } else {
        lemma_dec_digits_val(k / 10);
        let d = dec_digits(k);
        assert(d =~= dec_digits(k / 10).push(crate::text::digit_char(k % 10)));
        assert(d.drop_last() =~= dec_digits(k / 10));
        assert(crate::text::all_dec_digits(d)) by {
            assert(forall|i: int|
                0 <= i < d.len() - 1 ==> d[i] == dec_digits(k / 10)[i]);
        }
    }
}

/// `token` names this user, by id or by display name.
pub open spec fn user_matches_token(u: UserState, token: Seq<char>) -> bool {
    u.user_id@ == token || (u.display_name matches Some(nm) && nm@ == token)
}

/// The whole world state the relay guards with one lock.
#[derive(Debug)]
pub struct ServerState {
    pub next_user_id: u64,
    pub users: Vec<UserState>,
    pub rooms: Vec<RoomState>,
    pub clients: Vec<ClientHandle>,
    pub presence: Vec<(String, String)>,
    pub trains: Vec<TrainState>,
    pub boarding: Vec<(String, BoardingRequest)>,
    pub riders: Vec<(String, TrainRide)>,
    pub last_move_ms: Vec<(String, i64)>,
}

impl ServerState {
    /// The world invariant: unique keys throughout, unique display
    /// names, presence in step with positions and sessions, and no user
    /// both boarding and riding.
    pub open spec fn wf(&self) -> bool {
        &&& users_unique(self.users@)
        &&& names_unique(self.users@)
        &&& positions_ok(self.users@)
        &&& fresh_ids_ok(self.users@, self.next_user_id as int)
        &&& self.next_user_id < u64::MAX
        &&& rooms_unique(self.rooms@)
        &&& clients_unique(self.clients@)
        &&& forall|c: int|
            0 <= c < self.clients@.len() ==> has_user(
                self.users@,
                #[trigger] self.clients@[c].user_id@,
            )
        &&& kv_unique(self.presence@)
        &&& forall|id: Seq<char>|
            #[trigger] kv_has(self.presence@, id) ==> is_connected(self.clients@, id) && has_user(
                self.users@,
                id,
            ) && (kv_get(self.presence@, id) matches Some(s) && s@ == spec_user(
                self.users@,
                id,
            ).position.map_id@)
        &&& forall|c: int|
            0 <= c < self.clients@.len() ==> kv_has(
                self.presence@,
                #[trigger] self.clients@[c].user_id@,
            )
        &&& forall|k: int| 0 <= k < self.trains@.len() ==> #[trigger] self.trains@[k].x_milli
            < CIRC_MILLI
        &&& kv_unique(self.boarding@)
        &&& kv_unique(self.riders@)
        &&& kv_unique(self.last_move_ms@)
        &&& forall|id: Seq<char>|
            !(#[trigger] kv_has(self.boarding@, id) && #[trigger] kv_has(self.riders@, id))
    }

    /// A connected user is present on exactly the map its position
    /// names: there, always; anywhere else, never.
    pub proof fn lemma_presence_exact(&self, id: Seq<char>, m: Seq<char>)
        requires
            self.wf(),
            is_connected(self.clients@, id),
        ensures
            present_on(self.presence@, id, spec_user(self.users@, id).position.map_id@),
            m != spec_user(self.users@, id).position.map_id@ ==> !present_on(
                self.presence@,
                id,
                m,
            ),
    {
        let c = choose|c: int|
            0 <= c < self.clients@.len() && #[trigger] self.clients@[c].user_id@ == id;
        assert(kv_has(self.presence@, self.clients@[c].user_id@));
    }

    /// Index of the user named `user_id`.
    pub fn find_user(&self, user_id: &str) -> (r: Option<usize>)
        ensures
            match r {
                Some(i) => i < self.users@.len() && self.users@[i as int].user_id@ == user_id@,
                None => !has_user(self.users@, user_id@),
            },
    {
        let mut i: usize = 0;
        let n = self.users.len();
        while i < n
            invariant
                i <= n,
                n == self.users@.len(),
                forall|j: int| 0 <= j < i ==> #[trigger] self.users@[j].user_id@ != user_id@,
            decreases n - i,
        {
            if str_eq(self.users[i].user_id.as_str(), user_id) {
                return Some(i);
            }
            i = i + 1;
        }
        None
    }

    /// Index of the user whose signing key is `pubkey`.
    pub fn find_user_by_pubkey(&self, pubkey: &str) -> (r: Option<usize>)
        ensures
            match r {
                Some(i) => i < self.users@.len() && self.users@[i as int].pubkey@ == pubkey@,
                None => !has_pubkey(self.users@, pubkey@),
            },
    {
        let mut i: usize = 0;
        let n = self.users.len();
        while i < n
            invariant
                i <= n,
                n == self.users@.len(),
                forall|j: int| 0 <= j < i ==> #[trigger] self.users@[j].pubkey@ != pubkey@,
            decreases n - i,
        {
            if str_eq(self.users[i].pubkey.as_str(), pubkey) {
                return Some(i);
            }
            i = i + 1;
        }
        None
    }

    /// Index of the first user whose id or display name is `token`.
    pub fn find_user_match(&self, token: &str) -> (r: Option<usize>)
        ensures
            match r {
                Some(i) => i < self.users@.len() && user_matches_token(
                    self.users@[i as int],
                    token@,
                ),
                None => forall|j: int|
                    0 <= j < self.users@.len() ==> !user_matches_token(
                        #[trigger] self.users@[j],
                        token@,
                    ),
            },
    {
        let mut i: usize = 0;
        let n = self.users.len();
        while i < n
            invariant
                i <= n,
                n == self.users@.len(),
                forall|j: int| 0 <= j < i ==> !user_matches_token(#[trigger] self.users@[j], token@),
            decreases n - i,
        {
            if str_eq(self.users[i].user_id.as_str(), token) {
                return Some(i);
            }
            let name_hit = match &self.users[i].display_name {
                Some(nm) => str_eq(nm.as_str(), token),
                None => false,
            };
            if name_hit {
                return Some(i);
            }
            proof {
                assert(!user_matches_token(self.users@[i as int], token@));
            }
            i = i + 1;
        }
        None
    }

    /// A copy of the user named `user_id`.
    pub fn get_user(&self, user_id: &str) -> (r: Option<UserState>)
        requires
            self.wf(),
        ensures
            match r {
                Some(u) => has_user(self.users@, user_id@) && u == spec_user(
                    self.users@,
                    user_id@,
                ),
                None => !has_user(self.users@, user_id@),
            },
    {
        match self.find_user(user_id) {
            Some(i) => {
                proof {
                    lemma_user_at(self.users@, user_id@, i as int);
                }
                Some(self.users[i].clone())
            },
            None => None,
        }
    }

    /// Whether the user named `user_id` has a live session.
    pub fn is_client(&self, user_id: &str) -> (r: bool)
        ensures
            r == is_connected(self.clients@, user_id@),
    {
        let mut i: usize = 0;
        let n = self.clients.len();
        while i < n
            invariant
                i <= n,
                n == self.clients@.len(),
                forall|j: int| 0 <= j < i ==> #[trigger] self.clients@[j].user_id@ != user_id@,
            decreases n - i,
        {
            if str_eq(self.clients[i].user_id.as_str(), user_id) {
                return true;
            }
            i = i + 1;
        }
        false
    }

    /// Create a user for a signing key not seen before: a fresh
    /// canonical id, no name, the street spawn tile.
    pub fn create_user(&mut self, pubkey: &str) -> (r: UserState)
        requires
            old(self).wf(),
            old(self).next_user_id < u64::MAX - 1,
            !has_pubkey(old(self).users@, pubkey@),
        ensures
            final(self).wf(),
            final(self).users@.len() == old(self).users@.len() + 1,
            final(self).users@.subrange(0, old(self).users@.len() as int) == old(self).users@,
            r == final(self).users@.last(),
            r.user_id@ == "u_"@ + dec_digits(old(self).next_user_id as int),
            r.pubkey@ == pubkey@,
            r.display_name is None,
            r.x25519_pubkey is None,
            r.position.map_id@ == "street"@,
            r.position.x == 0 && r.position.y == 1,
            has_user(final(self).users@, r.user_id@),
            spec_user(final(self).users@, r.user_id@) == r,
            forall|id: Seq<char>|
                id != r.user_id@ ==> (#[trigger] has_user(final(self).users@, id) == has_user(
                    old(self).users@,
                    id,
                ) && (has_user(old(self).users@, id) ==> spec_user(final(self).users@, id)
                    == spec_user(old(self).users@, id))),
            final(self).next_user_id == old(self).next_user_id + 1,
            final(self).rooms@ == old(self).rooms@,
            final(self).clients@ == old(self).clients@,
            final(self).presence@ == old(self).presence@,
            final(self).trains@ == old(self).trains@,
            final(self).boarding@ == old(self).boarding@,
            final(self).riders@ == old(self).riders@,
            final(self).last_move_ms@ == old(self).last_move_ms@,
    {
        let ghost oldu = self.users@;
        let ghost next0 = self.next_user_id as int;
        let mut user_id = String::from_str("u_");
        let digits = u64_to_string(self.next_user_id);
        user_id.append(digits.as_str());
        let user = UserState {
            user_id: user_id.clone(),
            pubkey: String::from_str(pubkey),
            display_name: None,
            position: Position { map_id: String::from_str("street"), x: 0, y: 1 },
            x25519_pubkey: None,
        };
        let r = user.clone();
        self.users.push(user);
        self.next_user_id = self.next_user_id + 1;
        proof {
            reveal_strlit("u_");
            let news = self.users@;
            let n = oldu.len() as int;
            assert(news[n].user_id@ == "u_"@ + dec_digits(next0));
            assert(forall|a: int| 0 <= a < n ==> news[a] == oldu[a]);
            // the fresh id clashes with no stored one
            assert(forall|a: int| 0 <= a < n ==> #[trigger] oldu[a].user_id@ != "u_"@
                + dec_digits(next0));
            assert(users_unique(news)) by {
                assert(forall|a: int| 0 <= a < n ==> #[trigger] news[a].pubkey@ != pubkey@);
            }
            assert(names_unique(news));
            assert(positions_ok(news));
            assert(fresh_ids_ok(news, next0 + 1)) by {
                assert(forall|a: int, k: int|
                    0 <= a < n && k >= next0 + 1 ==> #[trigger] news[a].user_id@ != "u_"@
                        + #[trigger] dec_digits(k));
                assert forall|k: int| k >= next0 + 1 implies news[n].user_id@ != "u_"@
                    + #[trigger] dec_digits(k) by {
                    if news[n].user_id@ == "u_"@ + dec_digits(k) {
                        assert(dec_digits(next0) =~= dec_digits(k)) by {
                            assert(forall|q: int|
                                0 <= q < dec_digits(next0).len() ==> ("u_"@ + dec_digits(
                                    next0,
                                ))[q + 2] == dec_digits(next0)[q]);
                            assert(forall|q: int|
                                0 <= q < dec_digits(k).len() ==> ("u_"@ + dec_digits(k))[q + 2]
                                    == dec_digits(k)[q]);
                        }
                        lemma_dec_digits_val(next0);
                        lemma_dec_digits_val(k);
                    }
                }
            }
            lemma_user_at(news, news[n].user_id@, n);
            assert(news.subrange(0, n) =~= oldu);
            // other users keep their records
            assert forall|id: Seq<char>| id != news[n].user_id@ implies (#[trigger] has_user(
                news,
                id,
            ) == has_user(oldu, id) && (has_user(oldu, id) ==> spec_user(news, id) == spec_user(
                oldu,
                id,
            ))) by {
                if has_user(oldu, id) {
                    let a = choose|a: int| 0 <= a < oldu.len() && #[trigger] oldu[a].user_id@ == id;
                    assert(news[a].user_id@ == id);
                    lemma_user_at(news, id, a);
                    lemma_user_at(oldu, id, a);
                } else {
                    if has_user(news, id) {
                        let a = choose|a: int|
                            0 <= a < news.len() && #[trigger] news[a].user_id@ == id;
                        assert(a == n || oldu[a].user_id@ == id);
                        assert(false);
                    }
                }
            }
            assert forall|c: int| 0 <= c < self.clients@.len() implies has_user(
                news,
                #[trigger] self.clients@[c].user_id@,
            ) by {
                let id = self.clients@[c].user_id@;
                assert(has_user(oldu, id));
                let a = choose|a: int| 0 <= a < oldu.len() && #[trigger] oldu[a].user_id@ == id;
                assert(news[a].user_id@ == id);
            }
            // presence and sessions are untouched, so the linked
            // conditions carry over to the extended user list
            assert forall|id: Seq<char>| #[trigger] kv_has(self.presence@, id) implies
                is_connected(self.clients@, id) && has_user(news, id) && (kv_get(
                self.presence@,
                id,
            ) matches Some(sm) && sm@ == spec_user(news, id).position.map_id@) by {
                assert(is_connected(self.clients@, id));
                assert(has_user(oldu, id));
                assert(id != news[n].user_id@) by {
                    if id == news[n].user_id@ {
                        let a = choose|a: int|
                            0 <= a < oldu.len() && #[trigger] oldu[a].user_id@ == id;
                        assert(oldu[a].user_id@ != "u_"@ + dec_digits(next0));
                    }
                }
                let a = choose|a: int| 0 <= a < oldu.len() && #[trigger] oldu[a].user_id@ == id;
                assert(news[a].user_id@ == id);
                lemma_user_at(news, id, a);
                lemma_user_at(oldu, id, a);
            }
        }
        r
    }

    /// Index of the room named `room_id`.
    pub fn find_room(&self, room_id: &str) -> (r: Option<usize>)
        ensures
            match r {
                Some(i) => i < self.rooms@.len() && self.rooms@[i as int].room_id@ == room_id@,
                None => !has_room(self.rooms@, room_id@),
            },
    {
        let mut i: usize = 0;
        let n = self.rooms.len();
        while i < n
            invariant
                i <= n,
                n == self.rooms@.len(),
                forall|j: int| 0 <= j < i ==> #[trigger] self.rooms@[j].room_id@ != room_id@,
            decreases n - i,
        {
            if str_eq(self.rooms[i].room_id.as_str(), room_id) {
                return Some(i);
            }
            i = i + 1;
        }
        None
    }

    /// The room named `room_id`, created open and for sale at the
    /// configured price on first reference.
    pub fn get_or_create_room(&mut self, room_id: &str, price_xmr: &str) -> (r: RoomState)
        requires
            old(self).wf(),
        ensures
            final(self).wf(),
            has_room(final(self).rooms@, room_id@),
            room_like(r, spec_room(final(self).rooms@, room_id@)),
            r.room_id@ == room_id@,
            if has_room(old(self).rooms@, room_id@) {
                final(self).rooms@ == old(self).rooms@
            } else {
                &&& final(self).rooms@.len() == old(self).rooms@.len() + 1
                &&& final(self).rooms@.subrange(0, old(self).rooms@.len() as int) == old(
                    self,
                ).rooms@
                &&& final(self).rooms@.last().owner_pubkey is None
                &&& final(self).rooms@.last().price_xmr@ == price_xmr@
                &&& final(self).rooms@.last().for_sale == true
                &&& final(self).rooms@.last().access.mode == AccessMode::Open
                &&& final(self).rooms@.last().access.list@.len() == 0
                &&& final(self).rooms@.last().display_name is None
                &&& final(self).rooms@.last().door_color is None
            },
            forall|q: Seq<char>|
                q != room_id@ ==> #[trigger] has_room(final(self).rooms@, q) == has_room(
                    old(self).rooms@,
                    q,
                ) && (has_room(old(self).rooms@, q) ==> spec_room(final(self).rooms@, q)
                    == spec_room(old(self).rooms@, q)),
            final(self).users@ == old(self).users@,
            final(self).clients@ == old(self).clients@,
            final(self).presence@ == old(self).presence@,
            final(self).trains@ == old(self).trains@,
            final(self).boarding@ == old(self).boarding@,
            final(self).riders@ == old(self).riders@,
            final(self).last_move_ms@ == old(self).last_move_ms@,
            final(self).next_user_id == old(self).next_user_id,
    {
        let ghost oldr = self.rooms@;
        match self.find_room(room_id) {
            Some(i) => {
                proof {
                    lemma_room_at(self.rooms@, room_id@, i as int);
                }
                self.rooms[i].clone()
            },
            None => {
                let room = RoomState {
                    room_id: String::from_str(room_id),
                    owner_pubkey: None,
                    price_xmr: String::from_str(price_xmr),
                    for_sale: true,
                    access: AccessPolicy { mode: AccessMode::Open, list: Vec::new() },
                    display_name: None,
                    door_color: None,
                };
                let r = room.clone();
                self.rooms.push(room);
                proof {
                    let news = self.rooms@;
                    let n = oldr.len() as int;
                    assert(forall|a: int| 0 <= a < n ==> news[a] == oldr[a]);
                    assert(rooms_unique(news)) by {
                        assert(forall|a: int| 0 <= a < n ==> #[trigger] oldr[a].room_id@
                            != room_id@);
                    }
                    lemma_room_at(news, room_id@, n);
                    assert(news.subrange(0, n) =~= oldr);
                    assert forall|q: Seq<char>| q != room_id@ implies #[trigger] has_room(news, q)
                        == has_room(oldr, q) && (has_room(oldr, q) ==> spec_room(news, q)
                        == spec_room(oldr, q)) by {
                        if has_room(oldr, q) {
                            let a = choose|a: int|
                                0 <= a < oldr.len() && #[trigger] oldr[a].room_id@ == q;
                            assert(news[a].room_id@ == q);
                            lemma_room_at(news, q, a);
                            lemma_room_at(oldr, q, a);
                        } else {
                            if has_room(news, q) {
                                let a = choose|a: int|
                                    0 <= a < news.len() && #[trigger] news[a].room_id@ == q;
                                assert(a == n || oldr[a].room_id@ == q);
                                assert(false);
                            }
                        }
                    }
                }
                r
            },
        }
    }

    /// Replace the room record at `i`, keeping its identifier.
    pub fn update_room(&mut self, i: usize, room: RoomState)
        requires
            old(self).wf(),
            i < old(self).rooms@.len(),
            room.room_id@ == old(self).rooms@[i as int].room_id@,
        ensures
            final(self).wf(),
            final(self).rooms@ == old(self).rooms@.update(i as int, room),
            has_room(final(self).rooms@, room.room_id@),
            spec_room(final(self).rooms@, room.room_id@) == room,
            forall|q: Seq<char>|
                q != room.room_id@ ==> #[trigger] has_room(final(self).rooms@, q) == has_room(
                    old(self).rooms@,
                    q,
                ) && (has_room(old(self).rooms@, q) ==> spec_room(final(self).rooms@, q)
                    == spec_room(old(self).rooms@, q)),
            final(self).users@ == old(self).users@,
            final(self).clients@ == old(self).clients@,
            final(self).presence@ == old(self).presence@,
            final(self).trains@ == old(self).trains@,
            final(self).boarding@ == old(self).boarding@,
            final(self).riders@ == old(self).riders@,
            final(self).last_move_ms@ == old(self).last_move_ms@,
            final(self).next_user_id == old(self).next_user_id,
    {
        let ghost oldr = self.rooms@;
        let ghost rid = room.room_id@;
        self.rooms.set(i, room);
        proof {
            let news = self.rooms@;
            assert(rooms_unique(news)) by {
                assert(forall|a: int| 0 <= a < news.len() ==> news[a].room_id@ == oldr[a].room_id@);
            }
            lemma_room_at(news, rid, i as int);
            assert forall|q: Seq<char>| q != rid implies #[trigger] has_room(news, q) == has_room(
                oldr,
                q,
            ) && (has_room(oldr, q) ==> spec_room(news, q) == spec_room(oldr, q)) by {
                assert(forall|a: int| 0 <= a < news.len() ==> news[a].room_id@ == oldr[a].room_id@);
                if has_room(oldr, q) {
                    let a = choose|a: int| 0 <= a < oldr.len() && #[trigger] oldr[a].room_id@ == q;
                    assert(news[a].room_id@ == q);
                    lemma_room_at(news, q, a);
                    lemma_room_at(oldr, q, a);
                    assert(a != i as int);
                } else {
                    if has_room(news, q) {
                        let a = choose|a: int|
                            0 <= a < news.len() && #[trigger] news[a].room_id@ == q;
                        assert(oldr[a].room_id@ == q || a == i as int);
                        assert(false);
                    }
                }
            }
        }
    }

    /// Re-point the presence index for one user to a new map.
    pub fn move_connected_user(&mut self, user_id: &str, from_map: &str, to_map: &str)
        requires
            kv_unique(old(self).presence@),
        ensures
            kv_unique(final(self).presence@),
            (kv_get(final(self).presence@, user_id@) matches Some(s) && s@ == to_map@),
            forall|q: Seq<char>|
                q != user_id@ ==> #[trigger] kv_get(final(self).presence@, q) == kv_get(
                    old(self).presence@,
                    q,
                ),
            final(self).users@ == old(self).users@,
            final(self).rooms@ == old(self).rooms@,
            final(self).clients@ == old(self).clients@,
            final(self).trains@ == old(self).trains@,
            final(self).boarding@ == old(self).boarding@,
            final(self).riders@ == old(self).riders@,
            final(self).last_move_ms@ == old(self).last_move_ms@,
            final(self).next_user_id == old(self).next_user_id,
    {
        let _ = from_map;
        kv_insert(&mut self.presence, user_id, String::from_str(to_map));
    }

    /// List a user as present on a map.
    pub fn add_connected_user(&mut self, user_id: &str, map_id: &str)
        requires
            kv_unique(old(self).presence@),
        ensures
            kv_unique(final(self).presence@),
            (kv_get(final(self).presence@, user_id@) matches Some(s) && s@ == map_id@),
            forall|q: Seq<char>|
                q != user_id@ ==> #[trigger] kv_get(final(self).presence@, q) == kv_get(
                    old(self).presence@,
                    q,
                ),
            final(self).users@ == old(self).users@,
            final(self).rooms@ == old(self).rooms@,
            final(self).clients@ == old(self).clients@,
            final(self).trains@ == old(self).trains@,
            final(self).boarding@ == old(self).boarding@,
            final(self).riders@ == old(self).riders@,
            final(self).last_move_ms@ == old(self).last_move_ms@,
            final(self).next_user_id == old(self).next_user_id,
    {
        kv_insert(&mut self.presence, user_id, String::from_str(map_id));
    }

    /// Drop a user from the presence index.
    pub fn remove_connected_user(&mut self, user_id: &str, map_id: &str)
        requires
            kv_unique(old(self).presence@),
        ensures
            kv_unique(final(self).presence@),
            (kv_get(final(self).presence@, user_id@) is None),
            forall|q: Seq<char>|
                q != user_id@ ==> #[trigger] kv_get(final(self).presence@, q) == kv_get(
                    old(self).presence@,
                    q,
                ),
            final(self).users@ == old(self).users@,
            final(self).rooms@ == old(self).rooms@,
            final(self).clients@ == old(self).clients@,
            final(self).trains@ == old(self).trains@,
            final(self).boarding@ == old(self).boarding@,
            final(self).riders@ == old(self).riders@,
            final(self).last_move_ms@ == old(self).last_move_ms@,
            final(self).next_user_id == old(self).next_user_id,
    {
        let _ = map_id;
        kv_remove(&mut self.presence, user_id);
    }

    /// Replace user `i`'s record without moving it to another map.
    /// The id, signing key and map stay; the caller vouches that a new
    /// display name collides with nobody.
    pub fn update_user_same_map(&mut self, i: usize, u: UserState)
        requires
            old(self).wf(),
            i < old(self).users@.len(),
            u.user_id@ == old(self).users@[i as int].user_id@,
            u.pubkey@ == old(self).users@[i as int].pubkey@,
            u.position.map_id@ == old(self).users@[i as int].position.map_id@,
            i32::MIN < u.position.x < i32::MAX,
            i32::MIN < u.position.y < i32::MAX,
            (u.display_name matches Some(nm) ==> forall|j: int|
                0 <= j < old(self).users@.len() && j != i && #[trigger] old(
                    self,
                ).users@[j].display_name is Some ==> old(self).users@[j].display_name->0@ != nm@),
        ensures
            final(self).wf(),
            final(self).users@ == old(self).users@.update(i as int, u),
            has_user(final(self).users@, u.user_id@),
            spec_user(final(self).users@, u.user_id@) == u,
            forall|id: Seq<char>|
                id != u.user_id@ ==> #[trigger] has_user(final(self).users@, id) == has_user(
                    old(self).users@,
                    id,
                ) && (has_user(old(self).users@, id) ==> spec_user(final(self).users@, id)
                    == spec_user(old(self).users@, id)),
            final(self).rooms@ == old(self).rooms@,
            final(self).clients@ == old(self).clients@,
            final(self).presence@ == old(self).presence@,
            final(self).trains@ == old(self).trains@,
            final(self).boarding@ == old(self).boarding@,
            final(self).riders@ == old(self).riders@,
            final(self).last_move_ms@ == old(self).last_move_ms@,
            final(self).next_user_id == old(self).next_user_id,
    {
        let ghost oldu = self.users@;
        let ghost uid = u.user_id@;
        self.users.set(i, u);
        proof {
            let news = self.users@;
            assert(forall|a: int|
                0 <= a < news.len() && a != i as int ==> news[a] == oldu[a]);
            assert(users_unique(news)) by {
                assert(forall|a: int|
                    0 <= a < news.len() ==> news[a].user_id@ == oldu[a].user_id@);
                assert(forall|a: int| 0 <= a < news.len() ==> news[a].pubkey@ == oldu[a].pubkey@);
            }
            assert(names_unique(news));
            assert(positions_ok(news));
            assert(fresh_ids_ok(news, self.next_user_id as int)) by {
                assert(forall|a: int|
                    0 <= a < news.len() ==> news[a].user_id@ == oldu[a].user_id@);
            }
            lemma_user_at(news, uid, i as int);
            assert forall|id: Seq<char>| id != uid implies #[trigger] has_user(news, id)
                == has_user(oldu, id) && (has_user(oldu, id) ==> spec_user(news, id) == spec_user(
                oldu,
                id,
            )) by {
                assert(forall|a: int|
                    0 <= a < news.len() ==> news[a].user_id@ == oldu[a].user_id@);
                if has_user(oldu, id) {
                    let a = choose|a: int| 0 <= a < oldu.len() && #[trigger] oldu[a].user_id@ == id;
                    assert(news[a].user_id@ == id);
                    lemma_user_at(news, id, a);
                    lemma_user_at(oldu, id, a);
                    assert(a != i as int);
                } else {
                    if has_user(news, id) {
                        let a = choose|a: int|
                            0 <= a < news.len() && #[trigger] news[a].user_id@ == id;
                        assert(oldu[a].user_id@ == id);
                        assert(false);
                    }
                }
            }
            assert forall|c: int| 0 <= c < self.clients@.len() implies has_user(
                news,
                #[trigger] self.clients@[c].user_id@,
            ) by {
                let id = self.clients@[c].user_id@;
                let a = choose|a: int| 0 <= a < oldu.len() && #[trigger] oldu[a].user_id@ == id;
                assert(news[a].user_id@ == id);
            }
            assert forall|id: Seq<char>| #[trigger] kv_has(self.presence@, id) implies
                is_connected(self.clients@, id) && has_user(news, id) && (kv_get(
                self.presence@,
                id,
            ) matches Some(sm) && sm@ == spec_user(news, id).position.map_id@) by {
                assert(has_user(oldu, id));
                if id == uid {
                    assert(spec_user(oldu, id) == oldu[i as int]) by {
                        lemma_user_at(oldu, uid, i as int);
                    }
                    assert(spec_user(news, id).position.map_id@ == spec_user(
                        oldu,
                        id,
                    ).position.map_id@);
                } else {
                    let a = choose|a: int| 0 <= a < oldu.len() && #[trigger] oldu[a].user_id@ == id;
                    assert(news[a].user_id@ == id);
                }
            }
        }
    }

    /// Move a connected user to a new position, keeping its position
    /// and the presence index in step, atomically as far as any caller
    /// can see.
    pub fn set_position_and_move(&mut self, user_id: &str, new_pos: Position)
        requires
            old(self).wf(),
            is_connected(old(self).clients@, user_id@),
            i32::MIN < new_pos.x < i32::MAX,
            i32::MIN < new_pos.y < i32::MAX,
        ensures
            final(self).wf(),
            has_user(final(self).users@, user_id@),
            spec_user(final(self).users@, user_id@).position == new_pos,
            spec_user(final(self).users@, user_id@).user_id == spec_user(
                old(self).users@,
                user_id@,
            ).user_id,
            spec_user(final(self).users@, user_id@).pubkey == spec_user(
                old(self).users@,
                user_id@,
            ).pubkey,
            spec_user(final(self).users@, user_id@).display_name == spec_user(
                old(self).users@,
                user_id@,
            ).display_name,
            spec_user(final(self).users@, user_id@).x25519_pubkey == spec_user(
                old(self).users@,
                user_id@,
            ).x25519_pubkey,
            forall|id: Seq<char>|
                id != user_id@ ==> #[trigger] has_user(final(self).users@, id) == has_user(
                    old(self).users@,
                    id,
                ) && (has_user(old(self).users@, id) ==> spec_user(final(self).users@, id)
                    == spec_user(old(self).users@, id)),
            final(self).users@.len() == old(self).users@.len(),
            present_on(final(self).presence@, user_id@, new_pos.map_id@),
            forall|q: Seq<char>|
                q != user_id@ ==> #[trigger] kv_get(final(self).presence@, q) == kv_get(
                    old(self).presence@,
                    q,
                ),
            final(self).rooms@ == old(self).rooms@,
            final(self).clients@ == old(self).clients@,
            final(self).trains@ == old(self).trains@,
            final(self).boarding@ == old(self).boarding@,
            final(self).riders@ == old(self).riders@,
            final(self).last_move_ms@ == old(self).last_move_ms@,
            final(self).next_user_id == old(self).next_user_id,
    {
        let ghost oldu = self.users@;
        let ghost oldp = self.presence@;
        let i = match self.find_user(user_id) {
            Some(i) => i,
            None => {
                proof {
                    let c = choose|c: int|
                        0 <= c < self.clients@.len() && #[trigger] self.clients@[c].user_id@
                            == user_id@;
                    assert(has_user(self.users@, self.clients@[c].user_id@));
                    assert(false);
                }
                return ;
            },
        };
        proof {
            lemma_user_at(oldu, user_id@, i as int);
        }
        let map_copy = new_pos.map_id.clone();
        let old_user = &self.users[i];
        let updated = UserState {
            user_id: old_user.user_id.clone(),
            pubkey: old_user.pubkey.clone(),
            display_name: clone_opt_string(&old_user.display_name),
            position: new_pos,
            x25519_pubkey: clone_opt_string(&old_user.x25519_pubkey),
        };
        self.users.set(i, updated);
        kv_insert(&mut self.presence, user_id, map_copy);
        proof {
            let news = self.users@;
            let newp = self.presence@;
            let uid = user_id@;
            assert(forall|a: int|
                0 <= a < news.len() && a != i as int ==> news[a] == oldu[a]);
            assert(users_unique(news)) by {
                assert(forall|a: int|
                    0 <= a < news.len() ==> news[a].user_id@ == oldu[a].user_id@);
                assert(forall|a: int| 0 <= a < news.len() ==> news[a].pubkey@ == oldu[a].pubkey@);
            }
            assert(names_unique(news)) by {
                assert(forall|a: int|
                    0 <= a < news.len() ==> news[a].display_name == oldu[a].display_name);
            }
            assert(positions_ok(news));
            assert(fresh_ids_ok(news, self.next_user_id as int)) by {
                assert(forall|a: int|
                    0 <= a < news.len() ==> news[a].user_id@ == oldu[a].user_id@);
            }
            lemma_user_at(news, uid, i as int);
            assert forall|id: Seq<char>| id != uid implies #[trigger] has_user(news, id)
                == has_user(oldu, id) && (has_user(oldu, id) ==> spec_user(news, id) == spec_user(
                oldu,
                id,
            )) by {
                assert(forall|a: int|
                    0 <= a < news.len() ==> news[a].user_id@ == oldu[a].user_id@);
                if has_user(oldu, id) {
                    let a = choose|a: int| 0 <= a < oldu.len() && #[trigger] oldu[a].user_id@ == id;
                    assert(news[a].user_id@ == id);
                    lemma_user_at(news, id, a);
                    lemma_user_at(oldu, id, a);
                    assert(a != i as int);
                } else {
                    if has_user(news, id) {
                        let a = choose|a: int|
                            0 <= a < news.len() && #[trigger] news[a].user_id@ == id;
                        assert(oldu[a].user_id@ == id);
                        assert(false);
                    }
                }
            }
            assert forall|c: int| 0 <= c < self.clients@.len() implies has_user(
                news,
                #[trigger] self.clients@[c].user_id@,
            ) by {
                let id = self.clients@[c].user_id@;
                let a = choose|a: int| 0 <= a < oldu.len() && #[trigger] oldu[a].user_id@ == id;
                assert(news[a].user_id@ == id);
            }
            assert forall|id: Seq<char>| #[trigger] kv_has(newp, id) implies is_connected(
                self.clients@,
                id,
            ) && has_user(news, id) && (kv_get(newp, id) matches Some(sm) && sm@ == spec_user(
                news,
                id,
            ).position.map_id@) by {
                if id == uid {
                    assert(kv_get(newp, id) matches Some(sm) && sm@ == new_pos.map_id@);
                } else {
                    assert(kv_get(newp, id) == kv_get(oldp, id));
                    assert(kv_has(oldp, id)) by {
                        if !kv_has(oldp, id) {
                            assert(kv_get(oldp, id) is None);
                            assert(kv_get(newp, id) is None);
                            let a = choose|a: int|
                                0 <= a < newp.len() && #[trigger] newp[a].0@ == id;
                            lemma_kv_at(newp, id, a);
                        }
                    }
                }
            }
            assert forall|c: int| 0 <= c < self.clients@.len() implies kv_has(
                newp,
                #[trigger] self.clients@[c].user_id@,
            ) by {
                let id = self.clients@[c].user_id@;
                if id != uid {
                    assert(kv_has(oldp, id));
                    let a = choose|a: int| 0 <= a < oldp.len() && #[trigger] oldp[a].0@ == id;
                    lemma_kv_at(oldp, id, a);
                    assert(kv_get(newp, id) == kv_get(oldp, id));
                    if !kv_has(newp, id) {
                        assert(kv_get(newp, id) is None);
                    }
                } else {
                    assert(kv_get(newp, id) is Some);
                    if !kv_has(newp, id) {
                        assert(kv_get(newp, id) is None);
                    }
                }
            }
        }
    }

    /// Register a live session for a user already in the world, and
    /// list it on its current map.
    pub fn add_session(&mut self, user_id: &str, pubkey: &str)
        requires
            old(self).wf(),
            !is_connected(old(self).clients@, user_id@),
            has_user(old(self).users@, user_id@),
        ensures
            final(self).wf(),
            is_connected(final(self).clients@, user_id@),
            final(self).clients@.len() == old(self).clients@.len() + 1,
            final(self).clients@.subrange(0, old(self).clients@.len() as int) == old(
                self,
            ).clients@,
            present_on(
                final(self).presence@,
                user_id@,
                spec_user(old(self).users@, user_id@).position.map_id@,
            ),
            forall|q: Seq<char>|
                q != user_id@ ==> #[trigger] kv_get(final(self).presence@, q) == kv_get(
                    old(self).presence@,
                    q,
                ),
            final(self).users@ == old(self).users@,
            final(self).rooms@ == old(self).rooms@,
            final(self).trains@ == old(self).trains@,
            final(self).boarding@ == old(self).boarding@,
            final(self).riders@ == old(self).riders@,
            final(self).last_move_ms@ == old(self).last_move_ms@,
            final(self).next_user_id == old(self).next_user_id,
    {
        let ghost oldc = self.clients@;
        let ghost oldp = self.presence@;
        let i = match self.find_user(user_id) {
            Some(i) => i,
            None => {
                proof {
                    assert(false);
                }
                return ;
            },
        };
        proof {
            lemma_user_at(self.users@, user_id@, i as int);
        }
        let map_copy = self.users[i].position.map_id.clone();
        self.clients.push(
            ClientHandle { user_id: String::from_str(user_id), pubkey: String::from_str(pubkey) },
        );
        kv_insert(&mut self.presence, user_id, map_copy);
        proof {
            let newc = self.clients@;
            let newp = self.presence@;
            let uid = user_id@;
            let n = oldc.len() as int;
            assert(forall|a: int| 0 <= a < n ==> newc[a] == oldc[a]);
            assert(newc[n].user_id@ == uid);
            assert(clients_unique(newc)) by {
                assert(forall|a: int| 0 <= a < n ==> #[trigger] oldc[a].user_id@ != uid);
            }
            assert(newc.subrange(0, n) =~= oldc);
            assert forall|c: int| 0 <= c < newc.len() implies has_user(
                self.users@,
                #[trigger] newc[c].user_id@,
            ) by {
                if c < n {
                    assert(has_user(self.users@, oldc[c].user_id@));
                }
            }
            assert forall|id: Seq<char>| #[trigger] kv_has(newp, id) implies is_connected(
                newc,
                id,
            ) && has_user(self.users@, id) && (kv_get(newp, id) matches Some(sm) && sm@
                == spec_user(self.users@, id).position.map_id@) by {
                if id == uid {
                    assert(kv_get(newp, id) matches Some(sm) && sm@ == spec_user(
                        self.users@,
                        uid,
                    ).position.map_id@);
                    assert(is_connected(newc, id)) by {
                        assert(newc[n].user_id@ == id);
                    }
                } else {
                    assert(kv_get(newp, id) == kv_get(oldp, id));
                    assert(kv_has(oldp, id)) by {
                        if !kv_has(oldp, id) {
                            assert(kv_get(oldp, id) is None);
                            let a = choose|a: int|
                                0 <= a < newp.len() && #[trigger] newp[a].0@ == id;
                            lemma_kv_at(newp, id, a);
                        }
                    }
                    assert(is_connected(oldc, id));
                    let c = choose|c: int| 0 <= c < oldc.len() && #[trigger] oldc[c].user_id@ == id;
                    assert(newc[c].user_id@ == id);
                }
            }
            assert forall|c: int| 0 <= c < newc.len() implies kv_has(
                newp,
                #[trigger] newc[c].user_id@,
            ) by {
                let id = newc[c].user_id@;
                if c < n && id != uid {
                    assert(kv_has(oldp, id));
                    let a = choose|a: int| 0 <= a < oldp.len() && #[trigger] oldp[a].0@ == id;
                    lemma_kv_at(oldp, id, a);
                    assert(kv_get(newp, id) == kv_get(oldp, id));
                    if !kv_has(newp, id) {
                        assert(kv_get(newp, id) is None);
                    }
                } else {
                    assert(kv_get(newp, id) is Some);
                    if !kv_has(newp, id) {
                        assert(kv_get(newp, id) is None);
                    }
                }
            }
        }
    }

    /// Tear a session down: unregister it, drop the user from the
    /// presence index, and forget any boarding request or ride.
    pub fn remove_session(&mut self, user_id: &str)
        requires
            old(self).wf(),
        ensures
            final(self).wf(),
            !is_connected(final(self).clients@, user_id@),
            forall|id: Seq<char>|
                id != user_id@ ==> #[trigger] is_connected(final(self).clients@, id)
                    == is_connected(old(self).clients@, id),
            (kv_get(final(self).presence@, user_id@) is None),
            forall|q: Seq<char>|
                q != user_id@ ==> #[trigger] kv_get(final(self).presence@, q) == kv_get(
                    old(self).presence@,
                    q,
                ),
            (kv_get(final(self).boarding@, user_id@) is None),
            forall|q: Seq<char>|
                q != user_id@ ==> #[trigger] kv_get(final(self).boarding@, q) == kv_get(
                    old(self).boarding@,
                    q,
                ),
            (kv_get(final(self).riders@, user_id@) is None),
            forall|q: Seq<char>|
                q != user_id@ ==> #[trigger] kv_get(final(self).riders@, q) == kv_get(
                    old(self).riders@,
                    q,
                ),
            final(self).users@ == old(self).users@,
            final(self).rooms@ == old(self).rooms@,
            final(self).trains@ == old(self).trains@,
            final(self).last_move_ms@ == old(self).last_move_ms@,
            final(self).next_user_id == old(self).next_user_id,
    {
        let ghost oldc = self.clients@;
        let mut i: usize = 0;
        let n = self.clients.len();
        let mut found: Option<usize> = None;
        while i < n
            invariant
                i <= n,
                n == self.clients@.len(),
                self.clients@ == oldc,
                match found {
                    Some(f) => f < i && oldc[f as int].user_id@ == user_id@,
                    None => forall|j: int| 0 <= j < i ==> #[trigger] oldc[j].user_id@ != user_id@,
                },
            decreases n - i,
        {
            if found.is_none() && str_eq(self.clients[i].user_id.as_str(), user_id) {
                found = Some(i);
            }
            i = i + 1;
        }
        match found {
            Some(f) => {
                self.clients.remove(f);
            },
            None => {
            },
        }
        let ghost newc = self.clients@;
        proof {
            match found {
                Some(f) => {
                    let fi = f as int;
                    assert(newc =~= oldc.remove(fi));
                    assert(forall|a: int| 0 <= a < fi ==> newc[a] == oldc[a]);
                    assert(forall|a: int| fi <= a < newc.len() ==> newc[a] == oldc[a + 1]);
                    assert(clients_unique(newc));
                    assert(!is_connected(newc, user_id@)) by {
                        if is_connected(newc, user_id@) {
                            let a = choose|a: int|
                                0 <= a < newc.len() && #[trigger] newc[a].user_id@ == user_id@;
                            if a < fi {
                                assert(oldc[a].user_id@ == user_id@ && oldc[fi].user_id@
                                    == user_id@);
                            } else {
                                assert(oldc[a + 1].user_id@ == user_id@ && oldc[fi].user_id@
                                    == user_id@);
                            }
                        }
                    }
                    assert forall|id: Seq<char>| id != user_id@ implies #[trigger] is_connected(
                        newc,
                        id,
                    ) == is_connected(oldc, id) by {
                        if is_connected(oldc, id) {
                            let a = choose|a: int|
                                0 <= a < oldc.len() && #[trigger] oldc[a].user_id@ == id;
                            assert(a != fi);
                            if a < fi {
                                assert(newc[a].user_id@ == id);
                            } else {
                                assert(newc[a - 1].user_id@ == id);
                            }
                        } else {
                            if is_connected(newc, id) {
                                let a = choose|a: int|
                                    0 <= a < newc.len() && #[trigger] newc[a].user_id@ == id;
                                if a < fi {
                                    assert(oldc[a].user_id@ == id);
                                } else {
                                    assert(oldc[a + 1].user_id@ == id);
                                }
                                assert(false);
                            }
                        }
                    }
                },
                None => {
                    assert(newc =~= oldc);
                    assert(!is_connected(newc, user_id@));
                },
            }
            assert forall|c: int| 0 <= c < newc.len() implies has_user(
                self.users@,
                #[trigger] newc[c].user_id@,
            ) by {
                assert(is_connected(newc, newc[c].user_id@));
                assert(is_connected(oldc, newc[c].user_id@));
                let a = choose|a: int|
                    0 <= a < oldc.len() && #[trigger] oldc[a].user_id@ == newc[c].user_id@;
                assert(has_user(self.users@, oldc[a].user_id@));
            }
        }
        kv_remove(&mut self.presence, user_id);
        kv_remove(&mut self.boarding, user_id);
        kv_remove(&mut self.riders, user_id);
        proof {
            let newp = self.presence@;
            assert forall|id: Seq<char>| #[trigger] kv_has(newp, id) implies is_connected(
                newc,
                id,
            ) && has_user(self.users@, id) && (kv_get(newp, id) matches Some(sm) && sm@
                == spec_user(self.users@, id).position.map_id@) by {
                assert(id != user_id@) by {
                    if id == user_id@ {
                        let a = choose|a: int| 0 <= a < newp.len() && #[trigger] newp[a].0@ == id;
                        lemma_kv_at(newp, id, a);
                    }
                }
                assert(kv_get(newp, id) == kv_get(old(self).presence@, id));
                assert(kv_has(old(self).presence@, id)) by {
                    if !kv_has(old(self).presence@, id) {
                        assert(kv_get(old(self).presence@, id) is None);
                        let a = choose|a: int| 0 <= a < newp.len() && #[trigger] newp[a].0@ == id;
                        lemma_kv_at(newp, id, a);
                    }
                }
                assert(is_connected(oldc, id));
            }
            assert forall|c: int| 0 <= c < newc.len() implies kv_has(
                self.presence@,
                #[trigger] newc[c].user_id@,
            ) by {
                let id = newc[c].user_id@;
                assert(is_connected(newc, id));
                assert(id != user_id@);
                assert(is_connected(oldc, id));
                let a = choose|a: int| 0 <= a < oldc.len() && #[trigger] oldc[a].user_id@ == id;
                assert(kv_has(old(self).presence@, oldc[a].user_id@));
                let b = choose|b: int|
                    0 <= b < old(self).presence@.len() && #[trigger] old(self).presence@[b].0@
                        == id;
                lemma_kv_at(old(self).presence@, id, b);
                assert(kv_get(self.presence@, id) == kv_get(old(self).presence@, id));
                if !kv_has(self.presence@, id) {
                    assert(kv_get(self.presence@, id) is None);
                }
            }
            assert forall|id: Seq<char>|
                !(#[trigger] kv_has(self.boarding@, id) && #[trigger] kv_has(
                    self.riders@,
                    id,
                )) by {
                if kv_has(self.boarding@, id) && kv_has(self.riders@, id) {
                    assert(id != user_id@) by {
                        if id == user_id@ {
                            let a = choose|a: int|
                                0 <= a < self.boarding@.len() && #[trigger] self.boarding@[a].0@
                                    == id;
                            lemma_kv_at(self.boarding@, id, a);
                        }
                    }
                    assert(kv_get(self.boarding@, id) == kv_get(old(self).boarding@, id));
                    assert(kv_get(self.riders@, id) == kv_get(old(self).riders@, id));
                    let a = choose|a: int|
                        0 <= a < self.boarding@.len() && #[trigger] self.boarding@[a].0@ == id;
                    lemma_kv_at(self.boarding@, id, a);
                    let b = choose|b: int|
                        0 <= b < self.riders@.len() && #[trigger] self.riders@[b].0@ == id;
                    lemma_kv_at(self.riders@, id, b);
                    assert(kv_has(old(self).boarding@, id)) by {
                        if !kv_has(old(self).boarding@, id) {
                            assert(kv_get(old(self).boarding@, id) is None);
                        }
                    }
                    assert(kv_has(old(self).riders@, id)) by {
                        if !kv_has(old(self).riders@, id) {
                            assert(kv_get(old(self).riders@, id) is None);
                        }
                    }
                }
            }
        }
    }

    /// Forget a user's train ride, if any.
    pub fn remove_ride(&mut self, user_id: &str)
        requires
            old(self).wf(),
        ensures
            final(self).wf(),
            (kv_get(final(self).riders@, user_id@) is None),
            forall|q: Seq<char>|
                q != user_id@ ==> #[trigger] kv_get(final(self).riders@, q) == kv_get(
                    old(self).riders@,
                    q,
                ),
            final(self).users@ == old(self).users@,
            final(self).rooms@ == old(self).rooms@,
            final(self).clients@ == old(self).clients@,
            final(self).presence@ == old(self).presence@,
            final(self).trains@ == old(self).trains@,
            final(self).boarding@ == old(self).boarding@,
            final(self).last_move_ms@ == old(self).last_move_ms@,
            final(self).next_user_id == old(self).next_user_id,
    {
        kv_remove(&mut self.riders, user_id);
        proof {
            assert forall|id: Seq<char>|
                !(#[trigger] kv_has(self.boarding@, id) && #[trigger] kv_has(
                    self.riders@,
                    id,
                )) by {
                if kv_has(self.boarding@, id) && kv_has(self.riders@, id) {
                    assert(id != user_id@) by {
                        if id == user_id@ {
                            assert(kv_get(self.riders@, id) is Some);
                        }
                    }
                    assert(kv_get(self.riders@, id) == kv_get(old(self).riders@, id));
                    assert(kv_get(self.riders@, id) is Some);
                    assert(kv_has(old(self).riders@, id)) by {
                        if !kv_has(old(self).riders@, id) {
                            assert(kv_get(old(self).riders@, id) is None);
                        }
                    }
                }
            }
        }
    }

    /// Forget a user's boarding request, if any.
    pub fn remove_boarding(&mut self, user_id: &str)
        requires
            old(self).wf(),
        ensures
            final(self).wf(),
            (kv_get(final(self).boarding@, user_id@) is None),
            forall|q: Seq<char>|
                q != user_id@ ==> #[trigger] kv_get(final(self).boarding@, q) == kv_get(
                    old(self).boarding@,
                    q,
                ),
            final(self).users@ == old(self).users@,
            final(self).rooms@ == old(self).rooms@,
            final(self).clients@ == old(self).clients@,
            final(self).presence@ == old(self).presence@,
            final(self).trains@ == old(self).trains@,
            final(self).riders@ == old(self).riders@,
            final(self).last_move_ms@ == old(self).last_move_ms@,
            final(self).next_user_id == old(self).next_user_id,
    {
        kv_remove(&mut self.boarding, user_id);
        proof {
            assert forall|id: Seq<char>|
                !(#[trigger] kv_has(self.boarding@, id) && #[trigger] kv_has(
                    self.riders@,
                    id,
                )) by {
                if kv_has(self.boarding@, id) && kv_has(self.riders@, id) {
                    assert(id != user_id@) by {
                        if id == user_id@ {
                            assert(kv_get(self.boarding@, id) is Some);
                        }
                    }
                    assert(kv_get(self.boarding@, id) == kv_get(old(self).boarding@, id));
                    assert(kv_get(self.boarding@, id) is Some);
                    assert(kv_has(old(self).boarding@, id)) by {
                        if !kv_has(old(self).boarding@, id) {
                            assert(kv_get(old(self).boarding@, id) is None);
                        }
                    }
                }
            }
        }
    }

    /// An empty world: no users, no rooms, the trains at their starting
    /// blocks.
    pub fn empty() -> (r: ServerState)
        ensures
            r.wf(),
            r.users@.len() == 0,
            r.rooms@.len() == 0,
            r.clients@.len() == 0,
            r.next_user_id == 1,
            r.trains@.len() == 4,
            forall|k: int|
                0 <= k < 4 ==> #[trigger] r.trains@[k] == (TrainState {
                    id: k as u32,
                    x_milli: (k * (CIRC_MILLI as int / 4)) as u64,
                    speed_milli: TRAIN_SPEED_MILLI,
                    clockwise: true,
                }),
    {
        let trains = crate::trains::init_trains();
        proof {
            assert forall|k: int| 0 <= k < trains@.len() implies #[trigger] trains@[k].x_milli
                < CIRC_MILLI by {
                assert(trains@[k] == (TrainState {
                    id: k as u32,
                    x_milli: (k * (CIRC_MILLI as int / 4)) as u64,
                    speed_milli: TRAIN_SPEED_MILLI,
                    clockwise: true,
                }));
                if k == 0 {
                    assert(trains@[k].x_milli as int == 0 * (CIRC_MILLI as int / 4));
                } else if k == 1 {
                    assert(trains@[k].x_milli as int == 1 * (CIRC_MILLI as int / 4));
                } else if k == 2 {
                    assert(trains@[k].x_milli as int == 2 * (CIRC_MILLI as int / 4));
                } else {
                    assert(trains@[k].x_milli as int == 3 * (CIRC_MILLI as int / 4));
                }
            }
        }
        let r = ServerState {
            next_user_id: 1,
            users: Vec::new(),
            rooms: Vec::new(),
            clients: Vec::new(),
            presence: Vec::new(),
            trains,
            boarding: Vec::new(),
            riders: Vec::new(),
            last_move_ms: Vec::new(),
        };
        proof {
            assert(r.wf()) by {
                assert(forall|id: Seq<char>| !(#[trigger] kv_has(r.presence@, id)));
                assert(forall|id: Seq<char>| !(#[trigger] kv_has(r.boarding@, id)));
            }
        }
        r
    }

    /// The stored user collection is fit to restore whole: keys and
    /// names pairwise distinct, positions in range, and no numeric id
    /// suffix beyond the counter's range.
    pub open spec fn clean_user_records(users: Seq<UserState>) -> bool {
        &&& users_unique(users)
        &&& names_unique(users)
        &&& positions_ok(users)
        &&& forall|j: int|
            0 <= j < users.len() && (#[trigger] users[j].user_id@).len() >= 2
                && users[j].user_id@.subrange(0, 2) == "u_"@ ==> !(crate::text::spec_parse_uint(
                users[j].user_id@.skip(2),
            ) matches Some(v) && v >= u64::MAX as int - 2)
    }

    /// The stored room collection is fit to restore whole.
    pub open spec fn clean_room_records(rooms: Seq<RoomState>) -> bool {
        rooms_unique(rooms)
    }

    /// What a stored id contributes to the restored counter: the
    /// numeric suffix of a `u_<digits>` name, zero for any other.
    pub open spec fn id_numeric(u: UserState) -> int {
        if u.user_id@.len() >= 2 && u.user_id@.subrange(0, 2) == "u_"@ && (
        crate::text::spec_parse_uint(u.user_id@.skip(2)) matches Some(v) && 0 <= v
            <= u64::MAX as int) {
            crate::text::spec_parse_uint(u.user_id@.skip(2))->0
        } else {
            0
        }
    }

    /// Restore a world from the persisted user and room collections.
    /// A record that would break the world invariant (a repeated id,
    /// key or display name, an out-of-range position, or an id that
    /// would collide with a future canonical id) is left out rather
    /// than loaded.
    #[verifier::rlimit(100)]
    #[verifier::spinoff_prover]
    pub fn new(users: Vec<UserState>, rooms: Vec<RoomState>) -> (r: ServerState)
        ensures
            r.wf(),
            r.clients@.len() == 0,
            forall|k: int|
                0 <= k < r.users@.len() ==> user_from_among(#[trigger] r.users@[k], users@),
            forall|k: int|
                0 <= k < r.rooms@.len() ==> room_from_among(#[trigger] r.rooms@[k], rooms@),
            // fit collections are restored whole, in order
            Self::clean_user_records(users@) ==> r.users@ == users@,
            // the counter resumes just past the highest numeric id
            Self::clean_user_records(users@) ==> ((forall|j: int|
                0 <= j < users@.len() ==> Self::id_numeric(#[trigger] users@[j])
                    < r.next_user_id as int) && (r.next_user_id == 1 || exists|j: int|
                0 <= j < users@.len() && Self::id_numeric(#[trigger] users@[j])
                    == r.next_user_id as int - 1)),
            Self::clean_user_records(users@) && Self::clean_room_records(rooms@)
                ==> r.rooms@.len() == rooms@.len() && (forall|k: int|
                0 <= k < rooms@.len() ==> room_like(#[trigger] r.rooms@[k], rooms@[k])),
            // the four trains start at their blocks
            r.trains@.len() == 4,
            forall|k: int|
                0 <= k < 4 ==> #[trigger] r.trains@[k] == (TrainState {
                    id: k as u32,
                    x_milli: (k * (CIRC_MILLI as int / 4)) as u64,
                    speed_milli: TRAIN_SPEED_MILLI,
                    clockwise: true,
                }),
    {
        let mut state = ServerState::empty();
        let mut max_seen: u64 = 0;
        let mut i: usize = 0;
        let n = users.len();
        while i < n
            invariant
                i <= n,
                n == users@.len(),
                max_seen <= u64::MAX - 2,
                state.next_user_id as int == max_seen + 1,
                state.wf(),
                state.clients@.len() == 0,
                state.rooms@.len() == 0,
                state.trains@.len() == 4,
                forall|k: int|
                    0 <= k < 4 ==> #[trigger] state.trains@[k] == (TrainState {
                        id: k as u32,
                        x_milli: (k * (CIRC_MILLI as int / 4)) as u64,
                        speed_milli: TRAIN_SPEED_MILLI,
                        clockwise: true,
                    }),
                forall|k: int|
                    0 <= k < state.users@.len() ==> user_from_among(
                        #[trigger] state.users@[k],
                        users@,
                    ),
                Self::clean_user_records(users@) ==> state.users@ == users@.subrange(0, i as int),
                Self::clean_user_records(users@) ==> ((forall|j: int|
                    0 <= j < i ==> Self::id_numeric(#[trigger] users@[j]) <= max_seen as int) && (
                max_seen == 0 || exists|j: int|
                    0 <= j < i && Self::id_numeric(#[trigger] users@[j]) == max_seen as int)),
            decreases n - i,
        {
            let u = &users[i];
            let mut ok = state.find_user(u.user_id.as_str()).is_none();
            if ok {
                ok = state.find_user_by_pubkey(u.pubkey.as_str()).is_none();
            }
            if ok {
                ok = match &u.display_name {
                    Some(nm) => {
                        let mut free = true;
                        let mut j: usize = 0;
                        let m = state.users.len();
                        while j < m
                            invariant
                                j <= m,
                                m == state.users@.len(),
                                free ==> forall|k: int|
                                    0 <= k < j ==> !(#[trigger] state.users@[k].display_name
                                        matches Some(n2) && n2@ == nm@),
                                !free ==> exists|k: int|
                                    0 <= k < m && ((#[trigger] state.users@[k].display_name)
                                        matches Some(n2) && n2@ == nm@),
                            decreases m - j,
                        {
                            let hit = match &state.users[j].display_name {
                                Some(n2) => str_eq(n2.as_str(), nm.as_str()),
                                None => false,
                            };
                            if hit {
                                free = false;
                                proof {
                                    assert(state.users@[j as int].display_name matches Some(n2)
                                        && n2@ == nm@);
                                }
                            }
                            j = j + 1;
                        }
                        free
                    },
                    None => true,
                };
            }
            if ok {
                ok = i32::MIN < u.position.x && u.position.x < i32::MAX && i32::MIN < u.position.y
                    && u.position.y < i32::MAX;
            }
            // the numeric part of a canonical id raises the id counter;
            // an id numbered beyond the counter's range is not restored
            let mut numeric: u64 = 0;
            let mut overflow = false;
            let ghost mut suffix: Seq<char> = Seq::empty();
            let ghost mut have_prefix = false;
            let ghost mut suffix_parsed: Option<int> = None;
            match strip_prefix_str(u.user_id.as_str(), "u_") {
                Some(rest) => {
                    proof {
                        suffix = rest@;
                        have_prefix = true;
                    }
                    match parse_u64_str(rest) {
                        Some(v) => {
                            numeric = v;
                            proof {
                                suffix_parsed = Some(v as int);
                            }
                        },
                        None => {
                            let all = crate::text::parse_digits_u64(rest, 0);
                            proof {
                                assert(rest@.skip(0) =~= rest@);
                            }
                            if all.is_none() && is_all_digits_exec(rest) {
                                overflow = true;
                            }
                        },
                    }
                },
                None => {},
            }
            let ghost facts = NewUserParseFacts {
                have_prefix,
                suffix,
                suffix_parsed,
                overflow,
            };
            if numeric > u64::MAX - 3 {
                overflow = true;
            }
            proof {
                if Self::clean_user_records(users@) {
                    assert(numeric as int == Self::id_numeric(users@[i as int])) by {
                        let uu = users@[i as int];
                        if facts.have_prefix {
                            assert(uu.user_id@ =~= "u_"@ + facts.suffix);
                            assert(uu.user_id@.len() >= 2 && uu.user_id@.subrange(0, 2)
                                =~= "u_"@) by {
                                reveal_strlit("u_");
                            }
                            assert(uu.user_id@.skip(2) =~= facts.suffix) by {
                                reveal_strlit("u_");
                            }
                            match facts.suffix_parsed {
                                Some(v) => {
                                    assert(crate::text::spec_parse_uint(facts.suffix) == Some(v));
                                    assert(numeric as int == v);
                                },
                                None => {
                                    assert(!(crate::text::spec_parse_uint(
                                        facts.suffix,
                                    ) matches Some(v) && 0 <= v <= u64::MAX as int));
                                    assert(numeric == 0);
                                },
                            }
                        } else {
                            assert(!(uu.user_id@.len() >= 2 && uu.user_id@.subrange(0, 2)
                                == "u_"@));
                            assert(numeric == 0);
                        }
                    }
                    // a fit record passes every admission check
                    assert(state.users@ == users@.subrange(0, i as int));
                    assert(forall|a: int|
                        0 <= a < i ==> #[trigger] state.users@[a] == users@[a]);
                    assert(ok) by {
                        if !ok {
                            assert(u.user_id@ == users@[i as int].user_id@);
                        }
                    }
                    assert(!overflow) by {
                        if overflow {
                            assert(facts.have_prefix || numeric > u64::MAX - 3);
                            if facts.have_prefix {
                                assert(users@[i as int].user_id@ =~= "u_"@ + facts.suffix);
                                assert(users@[i as int].user_id@.len() >= 2
                                    && users@[i as int].user_id@.subrange(0, 2) =~= "u_"@) by {
                                    reveal_strlit("u_");
                                }
                                assert(users@[i as int].user_id@.skip(2) =~= facts.suffix) by {
                                    reveal_strlit("u_");
                                }
                                if facts.overflow {
                                    assert(crate::text::all_dec_digits(facts.suffix)
                                        && facts.suffix.len() > 0);
                                    crate::text::lemma_digits_val_nonneg(facts.suffix);
                                    assert(crate::text::spec_parse_uint(facts.suffix) == Some(
                                        crate::text::digits_val(facts.suffix),
                                    ));
                                } else {
                                    assert(facts.suffix_parsed == Some(numeric as int));
                                }
                            }
                        }
                    }
                }
            }
            if ok && !overflow {
                let ghost oldu = state.users@;
                let ghost old_next = state.next_user_id as int;
                if numeric >= max_seen {
                    max_seen = numeric;
                    state.next_user_id = numeric + 1;
                }
                proof {
                    assert(fresh_ids_ok(oldu, state.next_user_id as int));
                }
                let copied = u.clone();
                state.users.push(copied);
                proof {
                    if Self::clean_user_records(users@) {
                        assert(state.users@ =~= users@.subrange(0, i + 1));
                    }
                    assert(user_from_among(state.users@.last(), users@)) by {
                        assert(state.users@.last() == users@[i as int]);
                    }
                    let news = state.users@;
                    let nn = oldu.len() as int;
                    assert(forall|a: int| 0 <= a < nn ==> news[a] == oldu[a]);
                    assert(users_unique(news)) by {
                        assert(forall|a: int| 0 <= a < nn ==> #[trigger] oldu[a].user_id@
                            != u.user_id@);
                        assert(forall|a: int| 0 <= a < nn ==> #[trigger] oldu[a].pubkey@
                            != u.pubkey@);
                    }
                    assert(names_unique(news)) by {
                        assert(forall|a: int|
                            0 <= a < nn ==> !(u.display_name matches Some(n2)
                                && #[trigger] news[a].display_name is Some
                                && news[a].display_name->0@ == n2@));
                    }
                    assert(positions_ok(news)) by {
                        assert(i32::MIN < news[nn].position.x < i32::MAX && i32::MIN < news[
                            nn
                        ].position.y < i32::MAX);
                    }
                    assert(fresh_ids_ok(news, state.next_user_id as int)) by {
                        assert forall|k: int| k >= state.next_user_id as int implies news[
                            nn
                        ].user_id@ != "u_"@ + #[trigger] dec_digits(k) by {
                            if news[nn].user_id@ == "u_"@ + dec_digits(k) {
                                let id = u.user_id@;
                                lemma_canonical_parse(k);
                                assert(id.len() >= "u_"@.len() && id.subrange(
                                    0,
                                    "u_"@.len() as int,
                                ) =~= "u_"@) by {
                                    reveal_strlit("u_");
                                }
                                assert(facts.have_prefix);
                                assert(facts.suffix =~= dec_digits(k)) by {
                                    reveal_strlit("u_");
                                    assert(id =~= "u_"@ + facts.suffix);
                                    assert(forall|q: int|
                                        0 <= q < facts.suffix.len() ==> #[trigger] facts.suffix[q]
                                            == ("u_"@ + facts.suffix)[q + 2]);
                                    assert(forall|q: int|
                                        0 <= q < dec_digits(k).len() ==> #[trigger] dec_digits(
                                            k,
                                        )[q] == ("u_"@ + dec_digits(k))[q + 2]);
                                }
                                assert(crate::text::spec_parse_uint(facts.suffix) == Some(k));
                                match facts.suffix_parsed {
                                    Some(v) => {
                                        assert(v == k);
                                        assert(k <= numeric as int);
                                    },
                                    None => {
                                        assert(k > u64::MAX as int);
                                        assert(crate::text::digits_val(facts.suffix) == k);
                                        assert(facts.overflow);
                                    },
                                }
                            }
                        }
                    }
                    assert forall|id: Seq<char>| #[trigger] kv_has(state.presence@, id) implies
                        is_connected(state.clients@, id) && has_user(news, id) && (kv_get(
                        state.presence@,
                        id,
                    ) matches Some(sm) && sm@ == spec_user(news, id).position.map_id@) by {
                        assert(state.presence@.len() == 0);
                        let a = choose|a: int|
                            0 <= a < state.presence@.len() && #[trigger] state.presence@[a].0@
                                == id;
                    }
                }
            }
            i = i + 1;
        }
        proof {
            if Self::clean_user_records(users@) {
                assert(users@.subrange(0, users@.len() as int) =~= users@);
            }
        }
        let mut i: usize = 0;
        let n = rooms.len();
        while i < n
            invariant
                i <= n,
                n == rooms@.len(),
                state.wf(),
                state.clients@.len() == 0,
                state.trains@.len() == 4,
                forall|k: int|
                    0 <= k < 4 ==> #[trigger] state.trains@[k] == (TrainState {
                        id: k as u32,
                        x_milli: (k * (CIRC_MILLI as int / 4)) as u64,
                        speed_milli: TRAIN_SPEED_MILLI,
                        clockwise: true,
                    }),
                Self::clean_user_records(users@) ==> state.users@ == users@,
                Self::clean_user_records(users@) ==> ((forall|j: int|
                    0 <= j < users@.len() ==> Self::id_numeric(#[trigger] users@[j])
                        < state.next_user_id as int) && (state.next_user_id == 1 || exists|j: int|
                    0 <= j < users@.len() && Self::id_numeric(#[trigger] users@[j])
                        == state.next_user_id as int - 1)),
                forall|k: int|
                    0 <= k < state.users@.len() ==> user_from_among(
                        #[trigger] state.users@[k],
                        users@,
                    ),
                forall|k: int|
                    0 <= k < state.rooms@.len() ==> room_from_among(
                        #[trigger] state.rooms@[k],
                        rooms@,
                    ),
                Self::clean_room_records(rooms@) ==> state.rooms@.len() == i && (forall|k: int|
                    0 <= k < i ==> room_like(#[trigger] state.rooms@[k], rooms@[k])),
            decreases n - i,
        {
            let rm = &rooms[i];
            let room_slot = state.find_room(rm.room_id.as_str());
            proof {
                if Self::clean_room_records(rooms@) && Self::clean_user_records(users@) {
                    // a fit record's id is new: the stored prefix
                    // mirrors the input, whose ids are distinct
                    match room_slot {
                        Some(x) => {
                            assert(room_like(state.rooms@[x as int], rooms@[x as int]));
                            assert(rooms@[x as int].room_id@ == rooms@[i as int].room_id@);
                        },
                        None => {},
                    }
                }
            }
            if room_slot.is_none() {
                let ghost oldr = state.rooms@;
                let copied = RoomState {
                    room_id: rm.room_id.clone(),
                    owner_pubkey: clone_opt_string(&rm.owner_pubkey),
                    price_xmr: rm.price_xmr.clone(),
                    for_sale: rm.for_sale,
                    access: rm.access.clone(),
                    display_name: clone_opt_string(&rm.display_name),
                    door_color: clone_opt_string(&rm.door_color),
                };
                // restore the record exactly as stored
                let exact = rm.clone();
                let _ = copied;
                state.rooms.push(exact);
                proof {
                    if Self::clean_room_records(rooms@) && Self::clean_user_records(users@) {
                        assert(state.rooms@.len() == i + 1);
                        assert(forall|k: int|
                            0 <= k < i ==> room_like(
                                #[trigger] state.rooms@[k],
                                rooms@[k],
                            ));
                        assert(room_like(state.rooms@[i as int], rooms@[i as int]));
                    }
                    assert(room_from_among(state.rooms@.last(), rooms@)) by {
                        assert(room_like(state.rooms@.last(), rooms@[i as int]));
                    }
                    let news = state.rooms@;
                    let nn = oldr.len() as int;
                    assert(forall|a: int| 0 <= a < nn ==> news[a] == oldr[a]);
                    assert(rooms_unique(news)) by {
                        assert(forall|a: int| 0 <= a < nn ==> #[trigger] oldr[a].room_id@
                            != rm.room_id@);
                        assert(news[nn].room_id@ == rm.room_id@);
                    }
                }
            }
            i = i + 1;
        }
        state
    }
}

/// No two distinct users carry the same display name, in any
/// well-formed world.
pub proof fn lemma_display_names_unique(st: &ServerState, i: int, j: int)
    requires
        st.wf(),
        0 <= i < st.users@.len(),
        0 <= j < st.users@.len(),
        i != j,
        st.users@[i].display_name is Some,
        st.users@[j].display_name is Some,
    ensures
        st.users@[i].display_name->0@ != st.users@[j].display_name->0@,
{
}

/// A user holds at most one of a boarding request and a train ride, in
/// any well-formed world.
pub proof fn lemma_boarding_ride_exclusive(st: &ServerState, id: Seq<char>)
    requires
        st.wf(),
    ensures
        !(kv_has(st.boarding@, id) && kv_has(st.riders@, id)),
{
}

/// `u` appears verbatim in the stored collection.
pub open spec fn user_from_among(u: UserState, src: Seq<UserState>) -> bool {
    exists|j: int| 0 <= j < src.len() && u == #[trigger] src[j]
}

/// `rm` restates a stored room record field for field.
pub open spec fn room_from_among(rm: RoomState, src: Seq<RoomState>) -> bool {
    exists|j: int| 0 <= j < src.len() && room_like(rm, #[trigger] src[j])
}

/// What the restore loop learned about one stored id's numeric part.
pub struct NewUserParseFacts {
    pub have_prefix: bool,
    pub suffix: Seq<char>,
    pub suffix_parsed: Option<int>,
    pub overflow: bool,
}

/// Every character of the string is a decimal digit.
fn is_all_digits_exec(s: &str) -> (r: bool)
    ensures
        r == (crate::text::all_dec_digits(s@) && s@.len() > 0),
{
    let l = s.unicode_len();
    if l == 0 {
        return false;
    }
    let mut i: usize = 0;
    while i < l
        invariant
            i <= l,
            l == s@.len(),
            forall|j: int| 0 <= j < i ==> crate::text::is_dec_digit(#[trigger] s@[j]),
        decreases l - i,
    {
        let c = s.get_char(i) as u32;
        if c < 48 || c > 57 {
            proof {
                assert(!crate::text::is_dec_digit(s@[i as int]));
            }
            return false;
        }
        i = i + 1;
    }
    true
}

/// The canonical digit string of `k` parses back to `k`.
proof fn lemma_canonical_parse(k: int)
    requires
        k >= 0,
    ensures
        crate::text::spec_parse_uint(dec_digits(k)) == Some(k),
        crate::text::all_dec_digits(dec_digits(k)),
        dec_digits(k).len() > 0,
{
    lemma_dec_digits_val(k);
    assert(dec_digits(k)[0] != '+') by {
        assert(crate::text::is_dec_digit(dec_digits(k)[0]));
        assert('+' as u32 == 43);
    }
}

} // verus!
