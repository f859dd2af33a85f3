//! Rooms on the server: their codes, their handles, and the registry that
//! finds a room by its code.

use vstd::prelude::*;
use vstd::string::*;
use std::collections::HashMap;
use crate::protocol::SocketAddress;
use crate::text::push_char;
use crate::random::{random_below, DrawRecord};

verus! {

broadcast use vstd::std_specs::hash::group_hash_axioms;

/// The ASCII bytes of the characters that room codes are made of:
/// `ABCDEFGHIJMNPQRSTUVWXYZ23456789` (no `K`, `L`, `O`, `0` or `1`).
pub const ROOM_CODE_ALPHABET: [u8; 31] = [
    65, 66, 67, 68, 69, 70, 71, 72, 73, 74, 77, 78, 80, 81, 82, 83,
    84, 85, 86, 87, 88, 89, 90, 50, 51, 52, 53, 54, 55, 56, 57,
];

/// Number of characters in a room code.
pub const ROOM_CODE_LEN: usize = 6;

/// The alphabet of room codes, as characters.
pub open spec fn alphabet() -> Seq<char> {
    ROOM_CODE_ALPHABET@.map_values(|b: u8| b as char)
}

/// Whether `c` may appear in a room code.
pub open spec fn is_room_code_char(c: char) -> bool {
    alphabet().contains(c)
}

/// Whether `s` is a room code: six characters of the alphabet.
pub open spec fn is_room_code(s: Seq<char>) -> bool {
    &&& s.len() == ROOM_CODE_LEN
    &&& forall|i: int| 0 <= i < s.len() ==> is_room_code_char(#[trigger] s[i])
}

/// The room code whose characters are the alphabet's characters at
/// `indices`, in order.
pub open spec fn code_of_indices(indices: Seq<usize>) -> Seq<char> {
    Seq::new(indices.len(), |i: int| alphabet()[indices[i] as int])
}

/// The first position of `c` in the alphabet at or after `i`, or -1.
pub open spec fn alphabet_index_from(c: char, i: int) -> int
    decreases 31 - i,
{
    if i < 0 || i >= 31 {
        -1
    } else if alphabet()[i] == c {
        i
    } else {
        alphabet_index_from(c, i + 1)
    }
}

/// The position of `c` in the alphabet, or -1.
pub open spec fn alphabet_index(c: char) -> int {
    alphabet_index_from(c, 0)
}

/// The number under which the registry files the room code `s`: the
/// alphabet positions of its characters as base-32 digits, the first
/// character the least significant.
pub open spec fn code_key(s: Seq<char>) -> int
    decreases s.len(),
{
    if s.len() == 0 {
        0
    } else {
        alphabet_index(s[0]) + 32 * code_key(s.drop_first())
    }
}

/// `32` to the power `k`.
pub open spec fn pow32(k: nat) -> int
    decreases k,
{
    if k == 0 {
        1
    } else {
        32 * pow32((k - 1) as nat)
    }
}

proof fn lemma_pow32_small(k: nat)
    requires
        1 <= k <= 6,
    ensures
        pow32(k) == 32 * pow32((k - 1) as nat),
        pow32(k) <= 0x4000_0000,
{
    reveal_with_fuel(pow32, 7);
}

/// The code point of the alphabet's character at position `i`: `A`-`J`,
/// then `M` `N`, then `P`-`Z`, then `2`-`9`.
spec fn alphabet_code_point(i: int) -> int {
    if i < 10 {
        65 + i
    } else if i < 12 {
        77 + (i - 10)
    } else if i < 23 {
        80 + (i - 12)
    } else {
        50 + (i - 23)
    }
}

proof fn lemma_alphabet_byte(i: int)
    requires
        0 <= i < 31,
    ensures
        ROOM_CODE_ALPHABET@[i] as int == alphabet_code_point(i),
{
    if i == 0 {
    } else if i == 1 {
    } else if i == 2 {
    } else if i == 3 {
    } else if i == 4 {
    } else if i == 5 {
    } else if i == 6 {
    } else if i == 7 {
    } else if i == 8 {
    } else if i == 9 {
    } else if i == 10 {
    } else if i == 11 {
    } else if i == 12 {
    } else if i == 13 {
    } else if i == 14 {
    } else if i == 15 {
    } else if i == 16 {
    } else if i == 17 {
    } else if i == 18 {
    } else if i == 19 {
    } else if i == 20 {
    } else if i == 21 {
    } else if i == 22 {
    } else if i == 23 {
    } else if i == 24 {
    } else if i == 25 {
    } else if i == 26 {
    } else if i == 27 {
    } else if i == 28 {
    } else if i == 29 {
    } else if i == 30 {
    }
}

/// No character occurs twice in the alphabet.
pub proof fn lemma_alphabet_distinct(i: int, j: int)
    requires
        0 <= i < 31,
        0 <= j < 31,
        alphabet()[i] == alphabet()[j],
    ensures
        i == j,
{
    lemma_alphabet_byte(i);
    lemma_alphabet_byte(j);
    let (a, b) = (ROOM_CODE_ALPHABET@[i], ROOM_CODE_ALPHABET@[j]);
    assert(alphabet()[i] == a as char);
    assert(alphabet()[j] == b as char);
    assert((a as char) as u8 == a);
    assert((b as char) as u8 == b);
}

proof fn lemma_alphabet_index_from(c: char, i: int, j: int)
    requires
        0 <= i <= j < 31,
        alphabet()[j] == c,
    ensures
        i <= alphabet_index_from(c, i) <= j,
        alphabet()[alphabet_index_from(c, i)] == c,
    decreases j - i,
{
    if alphabet()[i] != c {
        lemma_alphabet_index_from(c, i + 1, j);
    }
}

/// A character of the alphabet sits at its alphabet position.
pub proof fn lemma_alphabet_index(c: char)
    requires
        is_room_code_char(c),
    ensures
        0 <= alphabet_index(c) < 31,
        alphabet()[alphabet_index(c)] == c,
{
    let j = choose|j: int| 0 <= j < alphabet().len() && alphabet()[j] == c;
    lemma_alphabet_index_from(c, 0, j);
}

proof fn lemma_code_key_bound(s: Seq<char>)
    requires
        forall|i: int| 0 <= i < s.len() ==> is_room_code_char(#[trigger] s[i]),
    ensures
        0 <= code_key(s) < pow32(s.len()),
    decreases s.len(),
{
    if s.len() > 0 {
        lemma_alphabet_index(s[0]);
        let t = s.drop_first();
        assert forall|i: int| 0 <= i < t.len() implies is_room_code_char(#[trigger] t[i]) by {
            assert(t[i] == s[i + 1]);
        }
        lemma_code_key_bound(t);
    }
}

/// Two sequences of alphabet characters of one length that are filed
/// under one number are equal.
proof fn lemma_code_key_injective_seq(a: Seq<char>, b: Seq<char>)
    requires
        a.len() == b.len(),
        forall|i: int| 0 <= i < a.len() ==> is_room_code_char(#[trigger] a[i]),
        forall|i: int| 0 <= i < b.len() ==> is_room_code_char(#[trigger] b[i]),
        code_key(a) == code_key(b),
    ensures
        a == b,
    decreases a.len(),
{
    if a.len() > 0 {
        let (ta, tb) = (a.drop_first(), b.drop_first());
        assert forall|i: int| 0 <= i < ta.len() implies is_room_code_char(#[trigger] ta[i]) by {
            assert(ta[i] == a[i + 1]);
        }
        assert forall|i: int| 0 <= i < tb.len() implies is_room_code_char(#[trigger] tb[i]) by {
            assert(tb[i] == b[i + 1]);
        }
        lemma_alphabet_index(a[0]);
        lemma_alphabet_index(b[0]);
        lemma_code_key_bound(ta);
        lemma_code_key_bound(tb);
        lemma_code_key_injective_seq(ta, tb);
        assert(a =~= b) by {
            assert forall|i: int| 0 <= i < a.len() implies a[i] == b[i] by {
                if i > 0 {
                    assert(a[i] == ta[i - 1]);
                    assert(b[i] == tb[i - 1]);
                }
            }
        }
    } else {
        assert(a =~= b);
    }
}

/// Distinct room codes are filed under distinct numbers, each below 2^30.
pub proof fn lemma_code_key_injective(a: Seq<char>, b: Seq<char>)
    requires
        is_room_code(a),
        is_room_code(b),
    ensures
        0 <= code_key(a) < 0x4000_0000,
        code_key(a) == code_key(b) <==> a == b,
{
    lemma_code_key_bound(a);
    assert(pow32(6) == 0x4000_0000) by {
        reveal_with_fuel(pow32, 7);
    }
    if code_key(a) == code_key(b) {
        lemma_code_key_injective_seq(a, b);
    }
}

/// Six draws below 31 give a room code, and different draws give different
/// codes: the code made from the draws is a faithful record of them.
pub proof fn lemma_draws_determine_code(d1: Seq<usize>, d2: Seq<usize>)
    requires
        d1.len() == ROOM_CODE_LEN,
        d2.len() == ROOM_CODE_LEN,
        forall|j: int| 0 <= j < d1.len() ==> #[trigger] d1[j] < 31,
        forall|j: int| 0 <= j < d2.len() ==> #[trigger] d2[j] < 31,
    ensures
        is_room_code(code_of_indices(d1)),
        code_of_indices(d1) == code_of_indices(d2) <==> d1 == d2,
{
    let (c1, c2) = (code_of_indices(d1), code_of_indices(d2));
    assert forall|j: int| 0 <= j < c1.len() implies is_room_code_char(#[trigger] c1[j]) by {
        assert(c1[j] == alphabet()[d1[j] as int]);
    }
    if c1 == c2 {
        assert forall|j: int| 0 <= j < d1.len() implies d1[j] == d2[j] by {
            assert(c1[j] == c2[j]);
            lemma_alphabet_distinct(d1[j] as int, d2[j] as int);
        }
        assert(d1 =~= d2);
    }
}

/// Every room code is the code of some six draws below 31: no code is out
/// of reach of the draws.
pub proof fn lemma_every_code_can_be_drawn(code: Seq<char>)
    requires
        is_room_code(code),
    ensures
        exists|d: Seq<usize>|
            #![auto]
            d.len() == ROOM_CODE_LEN && (forall|j: int| 0 <= j < d.len() ==> d[j] < 31)
                && code_of_indices(d) == code,
{
    let d = Seq::new(ROOM_CODE_LEN as nat, |j: int| alphabet_index(code[j]) as usize);
    assert forall|j: int| 0 <= j < d.len() implies d[j] < 31 && alphabet()[d[j] as int]
        == code[j] by {
        assert(is_room_code_char(code[j]));
        lemma_alphabet_index(code[j]);
    }
    assert(code_of_indices(d) =~= code);
}

/// The room code made of the alphabet's characters at `indices`.
pub fn room_code_from_indices(indices: &[usize]) -> (code: String)
    requires
        forall|i: int| 0 <= i < indices@.len() ==> #[trigger] indices@[i] < 31,
    ensures
        code@ == code_of_indices(indices@),
{
    let mut code = String::new();
    let mut i: usize = 0;
    while i < indices.len()
        invariant
            i <= indices@.len(),
            forall|j: int| 0 <= j < indices@.len() ==> #[trigger] indices@[j] < 31,
            code@ =~= code_of_indices(indices@.subrange(0, i as int)),
        decreases indices@.len() - i,
    {
        let k = indices[i];
        push_char(&mut code, ROOM_CODE_ALPHABET[k] as char);
        i = i + 1;
    }
    assert(indices@.subrange(0, indices@.len() as int) =~= indices@);
    code
}

/// Six fresh draws below 31, appended to `record`, and the room code made of
/// the alphabet's characters at the drawn positions, in the order drawn.
pub fn draw_room_code(record: &mut DrawRecord) -> (code: String)
    ensures
        final(record)@.len() == old(record)@.len() + ROOM_CODE_LEN,
        final(record)@.subrange(0, old(record)@.len() as int) == old(record)@,
        forall|j: int|
            old(record)@.len() <= j < final(record)@.len() ==> #[trigger] final(record)@[j] < 31,
        code@ == code_of_indices(final(record)@.subrange(
            old(record)@.len() as int,
            final(record)@.len() as int,
        )),
        is_room_code(code@),
{
    let ghost start = record@;
    let mut indices: Vec<usize> = Vec::new();
    let mut i: usize = 0;
    while i < ROOM_CODE_LEN
        invariant
            i <= ROOM_CODE_LEN,
            indices@.len() == i,
            forall|j: int| 0 <= j < indices@.len() ==> #[trigger] indices@[j] < 31,
            record@ == start + indices@,
        decreases ROOM_CODE_LEN - i,
    {
        let r = random_below(record, ROOM_CODE_ALPHABET.len());
        indices.push(r);
        i = i + 1;
    }
    assert(record@.subrange(0, start.len() as int) =~= start);
    assert(record@.subrange(start.len() as int, record@.len() as int) =~= indices@);
    let code = room_code_from_indices(indices.as_slice());
    assert forall|j: int| 0 <= j < code@.len() implies is_room_code_char(#[trigger] code@[j]) by {
        assert(alphabet()[indices@[j] as int] == code@[j]);
    }
    code
}

/// A fresh random room code: six characters drawn uniformly from the
/// alphabet, each from a draw of its own.
pub fn generate_room_code() -> (code: String)
    ensures
        is_room_code(code@),
        exists|d: Seq<usize>|
            #![auto]
            d.len() == ROOM_CODE_LEN && (forall|j: int| 0 <= j < d.len() ==> d[j] < 31) && code@
                == code_of_indices(d),
{
    let mut record = DrawRecord::new();
    let code = draw_room_code(&mut record);
    proof {
        let d = record@.subrange(0, record@.len() as int);
        assert forall|j: int| 0 <= j < d.len() implies d[j] < 31 by {
            assert(d[j] == record@[j]);
        }
    }
    code
}

/// The address of the machine that runs the room hosts.
pub open spec fn room_machine_octets() -> [u8; 4] {
    [152, 69, 167, 180]
}

/// The address at which a room listens, on the room machine at `port`.
pub open spec fn room_address(port: u16) -> SocketAddress {
    SocketAddress::V4 { octets: room_machine_octets(), port }
}

/// The server's handle on a running room: its code, the address where it
/// listens, how many players are in it and whether it is up.
pub struct RoomHandle {
    room_code: String,
    address: SocketAddress,
    player_count: u16,
    alive: bool,
    draws: DrawRecord,
}

impl RoomHandle {
    /// A room's code is always a room code.
    #[verifier::type_invariant]
    spec fn code_is_valid(self) -> bool {
        is_room_code(self.room_code@)
    }

    /// The room's code.
    pub closed spec fn code_view(self) -> Seq<char> {
        self.room_code@
    }

    /// The address where the room listens.
    pub closed spec fn address_view(self) -> SocketAddress {
        self.address
    }

    /// How many players are in the room.
    pub closed spec fn player_count_view(self) -> u16 {
        self.player_count
    }

    /// Whether the room is up.
    pub closed spec fn alive_view(self) -> bool {
        self.alive
    }

    /// The random draws that gave the room its codes, oldest first; the
    /// last six gave its current code.
    pub closed spec fn draws_view(self) -> Seq<usize> {
        self.draws@
    }

    /// A handle on a room host that listens on `port` of the room machine,
    /// with a fresh random code, no players, not yet up. Returns the
    /// handle and its code.
    pub fn new(port: u16) -> (res: (Self, String))
        ensures
            is_room_code(res.1@),
            res.0.draws_view().len() == ROOM_CODE_LEN,
            forall|j: int| 0 <= j < ROOM_CODE_LEN ==> #[trigger] res.0.draws_view()[j] < 31,
            res.1@ == code_of_indices(res.0.draws_view()),
            res.0.code_view() == res.1@,
            res.0.address_view() == room_address(port),
            res.0.player_count_view() == 0,
            !res.0.alive_view(),
    {
        let mut draws = DrawRecord::new();
        let room_code = draw_room_code(&mut draws);
        assert(draws@.subrange(0, draws@.len() as int) =~= draws@);
        let address = SocketAddress::V4 { octets: [152, 69, 167, 180], port };
        assert(address == room_address(port));
        (
            RoomHandle { room_code: room_code.clone(), address, player_count: 0, alive: false, draws },
            room_code,
        )
    }

    /// Gives the room a fresh random code and returns it; nothing else of
    /// the room changes.
    pub fn regenerate_code(&mut self) -> (code: String)
        ensures
            is_room_code(code@),
            final(self).draws_view().len() == old(self).draws_view().len() + ROOM_CODE_LEN,
            final(self).draws_view().subrange(0, old(self).draws_view().len() as int) == old(
                self,
            ).draws_view(),
            forall|j: int|
                old(self).draws_view().len() <= j < final(self).draws_view().len()
                    ==> #[trigger] final(self).draws_view()[j] < 31,
            code@ == code_of_indices(
                final(self).draws_view().subrange(
                    old(self).draws_view().len() as int,
                    final(self).draws_view().len() as int,
                ),
            ),
            final(self).code_view() == code@,
            final(self).address_view() == old(self).address_view(),
            final(self).player_count_view() == old(self).player_count_view(),
            final(self).alive_view() == old(self).alive_view(),
    {
        proof {
            use_type_invariant(&*self);
        }
        let mut draws = self.draws.clone();
        let new_code = draw_room_code(&mut draws);
        self.draws = draws;
        self.room_code = new_code.clone();
        new_code
    }

    /// The room's code.
    pub fn room_code(&self) -> (code: &String)
        ensures
            code@ == self.code_view(),
            is_room_code(code@),
    {
        proof {
            use_type_invariant(self);
        }
        &self.room_code
    }

    /// The address where the room listens.
    pub fn address(&self) -> (a: SocketAddress)
        ensures
            a == self.address_view(),
    {
        self.address
    }

    /// How many players are in the room.
    pub fn player_count(&self) -> (n: u16)
        ensures
            n == self.player_count_view(),
    {
        self.player_count
    }

    /// Whether the room is up.
    pub fn alive(&self) -> (b: bool)
        ensures
            b == self.alive_view(),
    {
        self.alive
    }
}

impl Clone for RoomHandle {
    /// A handle with the same code, address, player count and state.
    fn clone(&self) -> (r: Self)
        ensures
            r == *self,
    {
        proof {
            use_type_invariant(self);
        }
        RoomHandle {
            room_code: self.room_code.clone(),
            address: self.address,
            player_count: self.player_count,
            alive: self.alive,
            draws: self.draws.clone(),
        }
    }
}

/// The number under which `code` is filed, if it is a room code.
pub fn room_key(code: &str) -> (key: Option<u64>)
    ensures
        match key {
            Some(k) => is_room_code(code@) && k == code_key(code@),
            None => !is_room_code(code@),
        },
{
    let n = code.unicode_len();
    if n != ROOM_CODE_LEN {
        return None;
    }
    let ghost s = code@;
    let mut key: u64 = 0;
    let mut i: usize = n;
    assert(s.subrange(6, 6) =~= Seq::<char>::empty());
    while i > 0
        invariant
            n == ROOM_CODE_LEN == s.len(),
            s == code@,
            i <= n,
            forall|j: int| i <= j < 6 ==> is_room_code_char(#[trigger] s[j]),
            key == code_key(s.subrange(i as int, 6)),
            key < pow32((6 - i) as nat),
        decreases i,
    {
        let c = code.get_char(i - 1);
        let mut j: usize = 0;
        while j < 31 && (ROOM_CODE_ALPHABET[j] as char) != c
            invariant
                j <= 31,
                forall|k: int| 0 <= k < j ==> alphabet()[k] != c,
                alphabet_index_from(c, 0) == alphabet_index_from(c, j as int),
            decreases 31 - j,
        {
            j = j + 1;
        }
        if j == 31 {
            assert(!is_room_code_char(c)) by {
                if is_room_code_char(c) {
                    let m = choose|m: int| 0 <= m < alphabet().len() && alphabet()[m] == c;
                    assert(alphabet()[m] != c);
                }
            }
            assert(s[i - 1] == c);
            return None;
        }
        let ghost t = s.subrange(i - 1, 6);
        assert(t.drop_first() =~= s.subrange(i as int, 6));
        assert(t[0] == c);
        assert(alphabet_index(c) == j);
        proof {
            lemma_pow32_small((6 - i + 1) as nat);
        }
        key = (j as u64) + 32 * key;
        i = i - 1;
    }
    assert(s.subrange(0, 6) =~= s);
    Some(key)
}

/// The server's rooms, each found by its code.
pub struct RoomRegistry {
    rooms: HashMap<u64, RoomHandle>,
}

impl RoomRegistry {
    /// Every room is filed under the number of its own code.
    pub closed spec fn wf(self) -> bool {
        forall|k: u64| #[trigger]
            self.rooms@.contains_key(k) ==> {
                &&& is_room_code(self.rooms@[k].code_view())
                &&& code_key(self.rooms@[k].code_view()) == k
            }
    }

    /// The rooms, by code.
    pub closed spec fn view(self) -> Map<Seq<char>, RoomHandle> {
        Map::new(
            |c: Seq<char>| is_room_code(c) && self.rooms@.contains_key(code_key(c) as u64),
            |c: Seq<char>| self.rooms@[code_key(c) as u64],
        )
    }

    /// Each room in the registry is listed under its own code.
    pub proof fn lemma_rooms_under_own_code(self, code: Seq<char>)
        requires
            self.wf(),
            self.view().contains_key(code),
        ensures
            self.view()[code].code_view() == code,
            is_room_code(code),
    {
        let k = code_key(code) as u64;
        lemma_code_key_injective(code, self.rooms@[k].code_view());
    }

    /// An empty registry.
    pub fn new() -> (r: Self)
        ensures
            r.wf(),
            r.view() == Map::<Seq<char>, RoomHandle>::empty(),
    {
        let r = RoomRegistry { rooms: HashMap::new() };
        assert(r.view() =~= Map::<Seq<char>, RoomHandle>::empty());
        r
    }

    /// Whether a room has the code `code`.
    pub fn contains_code(&self, code: &str) -> (b: bool)
        ensures
            b == self.view().contains_key(code@),
    {
        match room_key(code) {
            Some(k) => {
                proof {
                    lemma_code_key_injective(code@, code@);
                }
                self.rooms.contains_key(&k)
            },
            None => false,
        }
    }

    /// Files `room` under its code, unless a room already has that code:
    /// then the registry is unchanged and `room` comes back.
    pub fn insert_room(&mut self, room: RoomHandle) -> (res: Result<String, RoomHandle>)
        requires
            old(self).wf(),
        ensures
            final(self).wf(),
            match res {
                Ok(code) => {
                    &&& code@ == room.code_view()
                    &&& !old(self).view().contains_key(room.code_view())
                    &&& final(self).view() == old(self).view().insert(room.code_view(), room)
                },
                Err(back) => {
                    &&& back == room
                    &&& old(self).view().contains_key(room.code_view())
                    &&& final(self).view() == old(self).view()
                },
            },
    {
        let code = room.room_code().clone();
        let key = match room_key(code.as_str()) {
            Some(k) => k,
            None => {
                return Err(room);
            },
        };
        proof {
            lemma_code_key_injective(code@, code@);
        }
        if self.rooms.contains_key(&key) {
            return Err(room);
        }
        let ghost old_view = self.view();
        let ghost new_code = room.code_view();
        let ghost old_rooms = self.rooms@;
        self.rooms.insert(key, room);
        assert forall|k: u64| #[trigger] self.rooms@.contains_key(k) implies {
            &&& is_room_code(self.rooms@[k].code_view())
            &&& code_key(self.rooms@[k].code_view()) == k
        } by {
            if k != key {
                assert(old_rooms.contains_key(k));
            }
        }
        assert(self.view() =~= old_view.insert(new_code, room)) by {
            assert forall|c: Seq<char>| #[trigger] self.view().contains_key(c) <==> old_view.insert(
                new_code,
                room,
            ).contains_key(c) by {
                if is_room_code(c) {
                    lemma_code_key_injective(c, new_code);
                }
            }
            assert forall|c: Seq<char>| #[trigger] self.view().contains_key(c) implies self.view()[c]
                == old_view.insert(new_code, room)[c] by {
                lemma_code_key_injective(c, new_code);
            }
        }
        Ok(code)
    }
}

} // verus!
