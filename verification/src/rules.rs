//! Tiles, racks, the board and a variant's rule table, with the bag
//! handling that moves tiles between them.

use vstd::prelude::*;
use rand::rngs::StdRng;
use crate::text::owned;

verus! {

/// Number of letter slots a rack, a letter-value table and a tile
/// distribution carry; letters are indices below this.
pub const MAX_ALPHABET_SIZE: usize = 32;

/// Board edge length.
pub const BOARD_WIDTH: usize = 15;

/// Board edge length.
pub const BOARD_HEIGHT: usize = 15;

/// Number of squares on the board.
pub const BOARD_CELLS: usize = 225;

/// A letter, as its index into the variant's alphabet.
pub type Letter = u8;

#[derive(Clone, Copy, Debug, PartialEq, Eq, Structural)]
pub enum Tile {
    Letter(Letter),
    Blank { acting_as: Option<Letter> },
}

/// Every letter a tile names lies inside the alphabet.
pub open spec fn tile_wf(t: Tile) -> bool {
    match t {
        Tile::Letter(l) => (l as int) < MAX_ALPHABET_SIZE,
        Tile::Blank { acting_as } => acting_as matches Some(l) ==> (l as int) < MAX_ALPHABET_SIZE,
    }
}

/// A blank that is not yet standing for any letter, or a letter tile.
pub open spec fn tile_fresh(t: Tile) -> bool {
    match t {
        Tile::Letter(_) => true,
        Tile::Blank { acting_as } => acting_as is None,
    }
}

/// Every tile of `s` is well formed and every blank in it is fresh.
pub open spec fn bag_wf(s: Seq<Tile>) -> bool {
    forall|i: int| 0 <= i < s.len() ==> tile_wf(#[trigger] s[i]) && tile_fresh(s[i])
}

/// What kind of tile `t` is for counting: its letter, or
/// `MAX_ALPHABET_SIZE` for a blank.
pub open spec fn tile_kind(t: Tile) -> int {
    match t {
        Tile::Letter(l) => l as int,
        Tile::Blank { .. } => MAX_ALPHABET_SIZE as int,
    }
}

/// How many tiles of kind `k` the sequence holds.
pub open spec fn kind_count(s: Seq<Tile>, k: int) -> nat
    decreases s.len(),
{
    if s.len() == 0 {
        0
    } else {
        kind_count(s.drop_last(), k) + if tile_kind(s.last()) == k { 1nat } else { 0nat }
    }
}

/// A blank forgets what it stood for; a letter tile is unchanged.
pub open spec fn reset_blank_spec(t: Tile) -> Tile {
    match t {
        Tile::Blank { .. } => Tile::Blank { acting_as: None },
        Tile::Letter(l) => Tile::Letter(l),
    }
}

/// A tile as it goes back into the bag: a blank forgets its letter.
pub fn reset_blank_tile(tile: Tile) -> (r: Tile)
    ensures
        r == reset_blank_spec(tile),
{
    match tile {
        Tile::Blank { .. } => Tile::Blank { acting_as: None },
        Tile::Letter(letter) => Tile::Letter(letter),
    }
}

// ----- racks -----

/// The sum of a sequence of small counts.
pub open spec fn sum_u8(s: Seq<u8>) -> int
    decreases s.len(),
{
    if s.len() == 0 {
        0
    } else {
        sum_u8(s.drop_last()) + s.last() as int
    }
}

#[derive(Debug)]
pub struct Rack {
    /// How many of each letter the rack holds.
    pub counts: Vec<u8>,
    /// How many blanks the rack holds.
    pub blanks: u8,
}

impl Rack {
    /// One count per letter of the alphabet.
    pub open spec fn wf(&self) -> bool {
        self.counts@.len() == MAX_ALPHABET_SIZE
    }

    /// How many tiles the rack holds.
    pub open spec fn total(&self) -> int {
        sum_u8(self.counts@) + self.blanks as int
    }

    /// How many tiles of kind `k` (see `tile_kind`) the rack holds.
    pub open spec fn kind(&self, k: int) -> int {
        if 0 <= k < self.counts@.len() {
            self.counts@[k] as int
        } else if k == MAX_ALPHABET_SIZE {
            self.blanks as int
        } else {
            0
        }
    }

    /// An empty rack.
    pub fn new() -> (r: Rack)
        ensures
            r.wf(),
            r.total() == 0,
            forall|i: int| 0 <= i < MAX_ALPHABET_SIZE ==> r.counts@[i] == 0,
            r.blanks == 0,
    {
        let mut counts: Vec<u8> = Vec::new();
        let mut i: usize = 0;
        while i < MAX_ALPHABET_SIZE
            invariant
                i <= MAX_ALPHABET_SIZE,
                counts@.len() == i,
                forall|j: int| 0 <= j < i ==> counts@[j] == 0,
                sum_u8(counts@) == 0,
            decreases MAX_ALPHABET_SIZE - i,
        {
            let ghost prev = counts@;
            counts.push(0);
            assert(counts@.drop_last() =~= prev);
            i = i + 1;
        }
        Rack { counts, blanks: 0 }
    }

    /// A copy of this rack.
    pub fn copy(&self) -> (r: Rack)
        ensures
            r.counts@ == self.counts@,
            r.blanks == self.blanks,
    {
        let counts = self.counts.clone();
        assert(counts@ =~= self.counts@);
        Rack { counts, blanks: self.blanks }
    }

    /// How many tiles the rack holds.
    pub fn count(&self) -> (n: u64)
        requires
            self.wf(),
        ensures
            n as int == self.total(),
    {
        let mut n: u64 = 0;
        let mut i: usize = 0;
        while i < self.counts.len()
            invariant
                self.wf(),
                i <= self.counts@.len(),
                n as int == sum_u8(self.counts@.subrange(0, i as int)),
                n <= 255 * i,
            decreases self.counts@.len() - i,
        {
            assert(self.counts@.subrange(0, i + 1).drop_last() =~= self.counts@.subrange(
                0,
                i as int,
            ));
            n = n + self.counts[i] as u64;
            i = i + 1;
        }
        assert(self.counts@.subrange(0, i as int) =~= self.counts@);
        n + self.blanks as u64
    }

    /// Whether the rack holds no tile.
    pub fn is_empty(&self) -> (r: bool)
        requires
            self.wf(),
        ensures
            r == (self.total() == 0),
    {
        self.count() == 0
    }

    /// Puts one `letter` tile on the rack.
    pub fn add_letter(&mut self, letter: Letter)
        requires
            old(self).wf(),
            (letter as int) < MAX_ALPHABET_SIZE,
            old(self).counts@[letter as int] < 255,
        ensures
            final(self).wf(),
            final(self).counts@ == old(self).counts@.update(
                letter as int,
                (old(self).counts@[letter as int] + 1) as u8,
            ),
            final(self).blanks == old(self).blanks,
    {
        let c = self.counts[letter as usize];
        self.counts.set(letter as usize, c + 1);
    }

    /// Takes `tile` off the rack if it is there; says whether it was.
    pub fn consume_tile(&mut self, tile: Tile) -> (found: bool)
        requires
            old(self).wf(),
            tile_wf(tile),
        ensures
            final(self).wf(),
            found == (old(self).kind(tile_kind(tile)) > 0),
            found ==> consumed(*old(self), *final(self), tile),
            !found ==> final(self).counts@ == old(self).counts@ && final(self).blanks == old(
                self,
            ).blanks,
    {
        match tile {
            Tile::Letter(l) => {
                let c = self.counts[l as usize];
                if c > 0 {
                    self.counts.set(l as usize, c - 1);
                    true
                } else {
                    false
                }
            },
            Tile::Blank { .. } => {
                if self.blanks > 0 {
                    self.blanks = self.blanks - 1;
                    true
                } else {
                    false
                }
            },
        }
    }
}

impl Default for Rack {
    /// An empty rack.
    fn default() -> (r: Rack)
        ensures
            r.wf(),
            r.total() == 0,
            r.blanks == 0,
    {
        Rack::new()
    }
}

/// `after` is `before` with one tile of `t`'s kind taken off.
pub open spec fn consumed(before: Rack, after: Rack, t: Tile) -> bool {
    match t {
        Tile::Letter(l) => after.counts@ == before.counts@.update(
            l as int,
            (before.counts@[l as int] - 1) as u8,
        ) && after.blanks == before.blanks,
        Tile::Blank { .. } => after.counts@ == before.counts@ && after.blanks == before.blanks - 1,
    }
}

pub proof fn lemma_sum_update(s: Seq<u8>, i: int, v: u8)
    requires
        0 <= i < s.len(),
    ensures
        sum_u8(s.update(i, v)) == sum_u8(s) - s[i] + v,
    decreases s.len(),
{
    if i < s.len() - 1 {
        assert(s.update(i, v).drop_last() =~= s.drop_last().update(i, v));
        lemma_sum_update(s.drop_last(), i, v);
    } else {
        assert(s.update(i, v).drop_last() =~= s.drop_last());
    }
}

pub proof fn lemma_sum_bound(s: Seq<u8>)
    ensures
        0 <= sum_u8(s) <= 255 * s.len(),
    decreases s.len(),
{
    if s.len() > 0 {
        lemma_sum_bound(s.drop_last());
    }
}

pub proof fn lemma_sum_each_le(s: Seq<u8>, i: int)
    requires
        0 <= i < s.len(),
    ensures
        s[i] <= sum_u8(s),
    decreases s.len(),
{
    lemma_sum_bound(s.drop_last());
    if i < s.len() - 1 {
        lemma_sum_each_le(s.drop_last(), i);
    }
}

/// The value of the tiles on a rack: each letter's count times its value.
pub open spec fn rack_value_spec(counts: Seq<u8>, values: Seq<u8>) -> int
    decreases counts.len(),
{
    if counts.len() == 0 || values.len() == 0 {
        0
    } else {
        rack_value_spec(counts.drop_last(), values.drop_last()) + counts.last() as int
            * values.last() as int
    }
}

pub proof fn lemma_rack_value_bound(counts: Seq<u8>, values: Seq<u8>)
    requires
        counts.len() == values.len(),
    ensures
        0 <= rack_value_spec(counts, values) <= 65025 * counts.len(),
    decreases counts.len(),
{
    if counts.len() > 0 {
        lemma_rack_value_bound(counts.drop_last(), values.drop_last());
        let c = counts.last() as int;
        let v = values.last() as int;
        assert(0 <= c * v <= 255 * 255) by (nonlinear_arith)
            requires
                0 <= c <= 255,
                0 <= v <= 255,
        ;
    }
}

/// The face value of a rack's tiles under `letter_values`.
pub fn rack_value(rack: &Rack, letter_values: &Vec<u8>) -> (v: i32)
    requires
        rack.wf(),
        letter_values@.len() == MAX_ALPHABET_SIZE,
    ensures
        v as int == rack_value_spec(rack.counts@, letter_values@),
        0 <= v <= 65025 * MAX_ALPHABET_SIZE,
{
    let mut total: i32 = 0;
    let mut i: usize = 0;
    while i < MAX_ALPHABET_SIZE
        invariant
            rack.wf(),
            letter_values@.len() == MAX_ALPHABET_SIZE,
            i <= MAX_ALPHABET_SIZE,
            total as int == rack_value_spec(
                rack.counts@.subrange(0, i as int),
                letter_values@.subrange(0, i as int),
            ),
            0 <= total <= 65025 * i,
        decreases MAX_ALPHABET_SIZE - i,
    {
        let c = rack.counts[i] as i32;
        let v = letter_values[i] as i32;
        assert(rack.counts@.subrange(0, i + 1).drop_last() =~= rack.counts@.subrange(0, i as int));
        assert(letter_values@.subrange(0, i + 1).drop_last() =~= letter_values@.subrange(
            0,
            i as int,
        ));
        assert(0 <= c * v <= 255 * 255) by (nonlinear_arith)
            requires
                0 <= c <= 255,
                0 <= v <= 255,
        ;
        total = total + c * v;
        i = i + 1;
    }
    assert(rack.counts@.subrange(0, MAX_ALPHABET_SIZE as int) =~= rack.counts@);
    assert(letter_values@.subrange(0, MAX_ALPHABET_SIZE as int) =~= letter_values@);
    total
}

// ----- the bag -----

/// `n` copies of `t`.
pub open spec fn repeat(t: Tile, n: nat) -> Seq<Tile>
    decreases n,
{
    if n == 0 {
        Seq::empty()
    } else {
        repeat(t, (n - 1) as nat).push(t)
    }
}

/// The letter tiles of the first `k` letters, in letter order, each
/// repeated as often as the distribution says.
pub open spec fn letter_tiles(dist: Seq<u8>, k: nat) -> Seq<Tile>
    decreases k,
{
    if k == 0 {
        Seq::empty()
    } else {
        letter_tiles(dist, (k - 1) as nat) + repeat(
            Tile::Letter((k - 1) as u8),
            dist[k - 1] as nat,
        )
    }
}

/// A fresh bag, before shuffling: every letter tile in letter order,
/// then the blanks.
pub open spec fn fresh_bag(dist: Seq<u8>, blanks: nat) -> Seq<Tile> {
    letter_tiles(dist, dist.len()) + repeat(Tile::Blank { acting_as: None }, blanks)
}

pub proof fn lemma_kind_count_append(a: Seq<Tile>, b: Seq<Tile>, k: int)
    ensures
        kind_count(a + b, k) == kind_count(a, k) + kind_count(b, k),
    decreases b.len(),
{
    if b.len() == 0 {
        assert(a + b =~= a);
    } else {
        assert((a + b).drop_last() =~= a + b.drop_last());
        lemma_kind_count_append(a, b.drop_last(), k);
    }
}

pub proof fn lemma_kind_count_repeat(t: Tile, n: nat, k: int)
    ensures
        kind_count(repeat(t, n), k) == if tile_kind(t) == k { n } else { 0 },
    decreases n,
{
    if n > 0 {
        lemma_kind_count_repeat(t, (n - 1) as nat, k);
        assert(repeat(t, n).drop_last() =~= repeat(t, (n - 1) as nat));
    }
}

/// Builds the bag a variant starts with (`build_bag`).
pub fn build_bag(rules: &VariantRules) -> (bag: Vec<Tile>)
    requires
        rules.wf(),
    ensures
        bag@ == fresh_bag(rules.tile_distribution@, rules.blank_tiles as nat),
        bag_wf(bag@),
{
    let mut bag: Vec<Tile> = Vec::new();
    let mut index: usize = 0;
    while index < MAX_ALPHABET_SIZE
        invariant
            rules.wf(),
            index <= MAX_ALPHABET_SIZE,
            bag@ == letter_tiles(rules.tile_distribution@, index as nat),
            bag_wf(bag@),
        decreases MAX_ALPHABET_SIZE - index,
    {
        let count = rules.tile_distribution[index];
        let ghost base = bag@;
        let mut c: u8 = 0;
        while c < count
            invariant
                rules.wf(),
                index < MAX_ALPHABET_SIZE,
                c <= count,
                bag@ == base + repeat(Tile::Letter(index as u8), c as nat),
                bag_wf(bag@),
            decreases count - c,
        {
            bag.push(Tile::Letter(index as u8));
            assert(bag@ =~= base + repeat(Tile::Letter(index as u8), (c + 1) as nat));
            c = c + 1;
        }
        index = index + 1;
    }
    let ghost base = bag@;
    let mut b: u8 = 0;
    while b < rules.blank_tiles
        invariant
            b <= rules.blank_tiles,
            bag@ == base + repeat(Tile::Blank { acting_as: None }, b as nat),
            bag_wf(bag@),
        decreases rules.blank_tiles - b,
    {
        bag.push(Tile::Blank { acting_as: None });
        assert(bag@ =~= base + repeat(Tile::Blank { acting_as: None }, (b + 1) as nat));
        b = b + 1;
    }
    bag
}

/// A random-number generator of the `rand` crate, seeded by the game.
#[verifier::external_type_specification]
#[verifier::external_body]
pub struct ExStdRng(StdRng);

/// What `gen_range(0..=max)` on `usize` returns from a `StdRng` made by
/// `seed_from_u64(seed)` that has already been asked for draws with the
/// bounds `earlier`, in order, where `usize` has `word_bits` bits.
/// `StdRng` is ChaCha12 in the `rand` version this crate builds with; a
/// `usize` draw takes 32-bit words where `usize` has 32 bits and 64-bit
/// words where it has 64, so the value depends on these arguments alone.
pub uninterp spec fn std_rng_draw(seed: u64, earlier: Seq<u64>, max: u64, word_bits: u32) -> u64;

/// A generator seeded by the game, with the seed it was made from and the
/// bounds of the draws it has given so far.
struct SeededDraws {
    rng: StdRng,
    seed: u64,
    earlier: Ghost<Seq<u64>>,
}

impl View for SeededDraws {
    type V = (u64, Seq<u64>);

    closed spec fn view(&self) -> (u64, Seq<u64>) {
        (self.seed, self.earlier@)
    }
}

/// `StdRng::seed_from_u64(seed)`: a generator started from `seed` that has
/// drawn nothing yet.
#[verifier::external_body]
fn seeded_rng(seed: u64) -> (r: SeededDraws)
    ensures
        r@ == (seed, Seq::<u64>::empty()),
{
    SeededDraws { rng: <StdRng as rand::SeedableRng>::seed_from_u64(seed), seed, earlier: Ghost(Seq::empty()) }
}

/// `rng.gen_range(0..=max)`: the draw `std_rng_draw` names for this
/// generator's seed and earlier draws on this platform's `usize`, which
/// lies in `0..=max` (a range that is never empty); the generator then
/// counts this draw too.
#[verifier::external_body]
fn draw_at_most(rng: &mut SeededDraws, max: usize) -> (r: usize)
    ensures
        r <= max,
        r == std_rng_draw(old(rng)@.0, old(rng)@.1, max as u64, usize::BITS),
        final(rng)@ == (old(rng)@.0, old(rng)@.1.push(max as u64)),
{
    rand::Rng::gen_range(&mut rng.rng, 0..=max)
}

proof fn lemma_multiset_update<A>(s: Seq<A>, i: int, x: A)
    requires
        0 <= i < s.len(),
    ensures
        s.update(i, x).to_multiset() =~= s.to_multiset().remove(s[i]).insert(x),
{
    broadcast use vstd::seq_lib::group_to_multiset_ensures;
    let r = s.remove(i);
    assert(s.update(i, x) =~= r.insert(i, x));
    vstd::seq_lib::to_multiset_insert(r, i, x);
}

/// `s` with the items at `i` and `j` exchanged.
pub open spec fn swap_positions<A>(s: Seq<A>, i: int, j: int) -> Seq<A> {
    s.update(i, s[j]).update(j, s[i])
}

/// Draws that a Fisher–Yates shuffle of `len` items can make: one per
/// position from the last down to the second, the `k`-th at most the
/// position it is drawn for, `len - 1 - k`.
pub open spec fn shuffle_draws_fit(draws: Seq<usize>, len: nat) -> bool {
    &&& draws.len() == if len == 0 { 0 } else { len - 1 }
    &&& forall|k: int| 0 <= k < draws.len() ==> #[trigger] draws[k] <= len - 1 - k
}

/// The Fisher–Yates shuffle of `s` driven by `draws`: the `k`-th draw
/// exchanges position `len - 1 - k` with the position it names.
pub open spec fn fisher_yates<A>(s: Seq<A>, draws: Seq<usize>) -> Seq<A>
    decreases draws.len(),
{
    if draws.len() == 0 {
        s
    } else {
        let k = draws.len() - 1;
        swap_positions(fisher_yates(s, draws.drop_last()), s.len() - 1 - k, draws[k] as int)
    }
}

proof fn lemma_swap_keeps_multiset<A>(s: Seq<A>, i: int, j: int)
    requires
        0 <= i < s.len(),
        0 <= j < s.len(),
    ensures
        swap_positions(s, i, j).to_multiset() =~= s.to_multiset(),
        swap_positions(s, i, j).len() == s.len(),
{
    broadcast use vstd::seq_lib::group_to_multiset_ensures;
    let s1 = s.update(i, s[j]);
    lemma_multiset_update(s, i, s[j]);
    lemma_multiset_update(s1, j, s[i]);
    assert(s1[j] == s[j]);
    assert(s.contains(s[i]));
    let m = s.to_multiset();
    assert(m.count(s[i]) > 0);
    assert(m.remove(s[i]).insert(s[j]).remove(s[j]).insert(s[i]) =~= m);
}

/// Shuffles the bag in place with the given draws (Fisher–Yates): for each
/// position from the last down to the second, in turn, exchanges it with
/// the position its draw names.
pub fn shuffle_bag_with_draws(bag: &mut Vec<Tile>, draws: &Vec<usize>)
    requires
        shuffle_draws_fit(draws@, old(bag)@.len()),
    ensures
        final(bag)@ == fisher_yates(old(bag)@, draws@),
        final(bag)@.len() == old(bag)@.len(),
        final(bag)@.to_multiset() == old(bag)@.to_multiset(),
{
    let len = bag.len();
    let mut k: usize = 0;
    while k < draws.len()
        invariant
            shuffle_draws_fit(draws@, len as nat),
            len == old(bag)@.len(),
            k <= draws@.len(),
            bag@.len() == len,
            bag@ == fisher_yates(old(bag)@, draws@.take(k as int)),
            bag@.to_multiset() == old(bag)@.to_multiset(),
        decreases draws@.len() - k,
    {
        let index = len - 1 - k;
        let swap_index = draws[k];
        assert(draws@[k as int] <= len - 1 - k);
        let a = bag[index];
        let b = bag[swap_index];
        let ghost s0 = bag@;
        bag.set(index, b);
        bag.set(swap_index, a);
        proof {
            lemma_swap_keeps_multiset(s0, index as int, swap_index as int);
            assert(bag@ =~= swap_positions(s0, index as int, swap_index as int));
            let t = draws@.take(k + 1);
            assert(t.drop_last() =~= draws@.take(k as int));
            assert(t[k as int] == draws@[k as int]);
            assert(fisher_yates(old(bag)@, t) == swap_positions(
                fisher_yates(old(bag)@, t.drop_last()), old(bag)@.len() - 1 - k, t[k as int] as int));
        }
        k = k + 1;
    }
    assert(draws@.take(draws@.len() as int) =~= draws@);
}

/// The bounds of the first `k` draws of a shuffle of `len` items: the
/// positions from the last one down.
pub open spec fn shuffle_bounds(len: nat, k: nat) -> Seq<u64> {
    Seq::new(k, |j: int| (len - 1 - j) as u64)
}

/// The draws a shuffle of `len` items seeded with `seed` makes: the `k`-th
/// is `gen_range(0..=len - 1 - k)` of the generator after the earlier ones.
pub open spec fn seeded_draws(seed: u64, len: nat) -> Seq<usize> {
    Seq::new(
        if len == 0 { 0nat } else { (len - 1) as nat },
        |k: int| std_rng_draw(seed, shuffle_bounds(len, k as nat), (len - 1 - k) as u64, usize::BITS) as usize,
    )
}

/// Shuffles the bag in place from `seed` (Fisher–Yates): a generator
/// seeded with `seed` draws, for each position from the last down to the
/// second, a position at most that far along, and the two are exchanged.
pub fn shuffle_bag(bag: &mut Vec<Tile>, seed: u64)
    ensures
        final(bag)@ == fisher_yates(old(bag)@, seeded_draws(seed, old(bag)@.len())),
        final(bag)@.len() == old(bag)@.len(),
        final(bag)@.to_multiset() == old(bag)@.to_multiset(),
{
    let mut rng = seeded_rng(seed);
    let len = bag.len();
    let ghost target = seeded_draws(seed, len as nat);
    let mut draws: Vec<usize> = Vec::new();
    let mut k: usize = 0;
    while k + 1 < len
        invariant
            len == old(bag)@.len(),
            bag@ == old(bag)@,
            target == seeded_draws(seed, len as nat),
            k == draws@.len(),
            len == 0 ==> k == 0,
            len > 0 ==> k <= len - 1,
            rng@ == (seed, shuffle_bounds(len as nat, k as nat)),
            draws@ == target.take(k as int),
            forall|j: int| 0 <= j < k ==> #[trigger] draws@[j] <= len - 1 - j,
        decreases len - k,
    {
        let swap_index = draw_at_most(&mut rng, len - 1 - k);
        proof {
            assert(shuffle_bounds(len as nat, k as nat).push((len - 1 - k) as u64) =~= shuffle_bounds(len as nat, (k + 1) as nat));
            assert(target[k as int] == swap_index);
        }
        draws.push(swap_index);
        k = k + 1;
        proof {
            assert(draws@ =~= target.take(k as int));
        }
    }
    assert(draws@ =~= target);
    shuffle_bag_with_draws(bag, &draws);
}

pub proof fn lemma_kind_count_pop(s: Seq<Tile>, k: int)
    requires
        s.len() > 0,
    ensures
        kind_count(s, k) == kind_count(s.drop_last(), k) + if tile_kind(s.last()) == k {
            1int
        } else {
            0int
        },
{
}

/// Tops the rack up to `rack_size` from the end of the bag, one tile at a
/// time, for as long as tiles remain. Tiles are only moved, never made or
/// lost: for each kind of tile, rack plus bag holds as many as before.
pub fn refill_rack(rack: &mut Rack, bag: &mut Vec<Tile>, rack_size: u8)
    requires
        old(rack).wf(),
        bag_wf(old(bag)@),
    ensures
        final(rack).wf(),
        bag_wf(final(bag)@),
        final(bag)@ == old(bag)@.take(final(bag)@.len() as int),
        final(rack).total() == old(rack).total() + (old(bag)@.len() - final(bag)@.len()),
        final(rack).total() == if old(rack).total() >= rack_size {
            old(rack).total()
        } else if old(rack).total() + old(bag)@.len() <= rack_size {
            old(rack).total() + old(bag)@.len()
        } else {
            rack_size as int
        },
        forall|k: int|
            0 <= k <= MAX_ALPHABET_SIZE ==> #[trigger] final(rack).kind(k) + kind_count(
                final(bag)@,
                k,
            ) == old(rack).kind(k) + kind_count(old(bag)@, k),
{
    let ghost rack0 = old(rack).total();
    let ghost bag0 = old(bag)@;
    while rack.count() < rack_size as u64 && bag.len() > 0
        invariant
            rack.wf(),
            bag_wf(bag@),
            bag@ == bag0.take(bag@.len() as int),
            bag@.len() <= bag0.len(),
            rack.total() == rack0 + (bag0.len() - bag@.len()),
            rack0 >= rack_size ==> rack.total() == rack0,
            rack0 < rack_size ==> rack.total() <= rack_size,
            forall|k: int|
                0 <= k <= MAX_ALPHABET_SIZE ==> #[trigger] rack.kind(k) + kind_count(bag@, k)
                    == old(rack).kind(k) + kind_count(bag0, k),
        decreases bag@.len(),
    {
        let ghost b_before = bag@;
        let ghost r_before = *rack;
        let tile = bag.pop().unwrap();
        assert(bag@ =~= b_before.drop_last());
        assert(b_before.drop_last() =~= bag0.take(b_before.len() - 1));
        assert(tile == b_before.last());
        assert(bag_wf(bag@)) by {
            assert forall|i: int| 0 <= i < bag@.len() implies tile_wf(#[trigger] bag@[i])
                && tile_fresh(bag@[i]) by {
                assert(bag@[i] == b_before[i]);
            }
        }
        assert(tile_wf(tile)) by {
            assert(b_before[b_before.len() - 1] == tile);
        }
        match tile {
            Tile::Letter(letter) => {
                proof {
                    lemma_sum_each_le(rack.counts@, letter as int);
                }
                rack.add_letter(letter);
                proof {
                    lemma_sum_update(r_before.counts@, letter as int, (r_before.counts@[letter as int] + 1) as u8);
                }
            },
            Tile::Blank { .. } => {
                proof {
                    lemma_sum_bound(rack.counts@);
                }
                rack.blanks = rack.blanks + 1;
            },
        }
        proof {
            assert(bag@ =~= bag0.take(bag@.len() as int));
            assert forall|k: int| 0 <= k <= MAX_ALPHABET_SIZE implies #[trigger] rack.kind(k)
                + kind_count(bag@, k) == old(rack).kind(k) + kind_count(bag0, k) by {
                lemma_kind_count_pop(b_before, k);
                assert(r_before.kind(k) + kind_count(b_before, k) == old(rack).kind(k)
                    + kind_count(bag0, k));
            }
        }
    }
}

// ----- the board -----

#[derive(Clone, Copy, Debug, PartialEq, Eq, Structural)]
pub enum Premium {
    Blank,
    DoubleLetter,
    TripleLetter,
    DoubleWord,
    TripleWord,
}

#[derive(Clone, Copy, Debug, PartialEq, Eq, Structural)]
pub enum BoardCell {
    Empty { premium: Premium },
    Filled { letter: Letter, is_blank: bool },
}

#[derive(Debug)]
pub struct BoardState {
    /// Row-major squares, `BOARD_WIDTH` per row.
    pub cells: Vec<BoardCell>,
}

/// The board part of a game in progress.
#[derive(Debug)]
pub struct GameState {
    pub board: BoardState,
}

impl GameState {
    /// A fresh board: every square empty, carrying the variant's premium.
    pub fn new(rules: &VariantRules) -> (g: GameState)
        requires
            rules.wf(),
        ensures
            g.board.cells@.len() == BOARD_CELLS,
            forall|i: int|
                0 <= i < BOARD_CELLS ==> #[trigger] g.board.cells@[i] == (BoardCell::Empty {
                    premium: rules.premiums@[i],
                }),
    {
        let mut cells: Vec<BoardCell> = Vec::new();
        let mut i: usize = 0;
        while i < BOARD_CELLS
            invariant
                rules.wf(),
                i <= BOARD_CELLS,
                cells@.len() == i,
                forall|j: int|
                    0 <= j < i ==> #[trigger] cells@[j] == (BoardCell::Empty {
                        premium: rules.premiums@[j],
                    }),
            decreases BOARD_CELLS - i,
        {
            cells.push(BoardCell::Empty { premium: rules.premiums[i] });
            i = i + 1;
        }
        GameState { board: BoardState { cells } }
    }
}

// ----- alphabets and variant rules -----

/// The capital Latin letter at position `i` of the alphabet.
pub open spec fn latin_letter(i: int) -> char {
    (65 + i) as char
}

/// The written form of each letter, indexed by letter.
#[derive(Debug)]
pub struct Alphabet {
    pub graphemes: Vec<String>,
}

impl Alphabet {
    /// The written form of `letter`, if the alphabet has one.
    pub fn to_grapheme(&self, letter: Letter) -> (g: Option<String>)
        ensures
            (letter as int) < self.graphemes@.len() ==> (g matches Some(s) && s@
                == self.graphemes@[letter as int]@),
            (letter as int) >= self.graphemes@.len() ==> g is None,
    {
        if (letter as usize) < self.graphemes.len() {
            Some(self.graphemes[letter as usize].clone())
        } else {
            None
        }
    }

    /// The first letter written as `s`, if any.
    pub fn to_letter(&self, s: &str) -> (l: Option<Letter>)
        requires
            self.graphemes@.len() <= 256,
        ensures
            l matches Some(x) ==> ((x as int) < self.graphemes@.len() && self.graphemes@[x as int]@
                == s@ && forall|j: int| 0 <= j < x ==> self.graphemes@[j]@ != s@),
            l is None ==> forall|j: int|
                0 <= j < self.graphemes@.len() ==> #[trigger] self.graphemes@[j]@ != s@,
    {
        let mut i: usize = 0;
        while i < self.graphemes.len()
            invariant
                self.graphemes@.len() <= 256,
                i <= self.graphemes@.len(),
                forall|j: int| 0 <= j < i ==> #[trigger] self.graphemes@[j]@ != s@,
            decreases self.graphemes@.len() - i,
        {
            if crate::text::str_eq(self.graphemes[i].as_str(), s) {
                return Some(i as u8);
            }
            i = i + 1;
        }
        None
    }

    /// The 26-letter Latin alphabet, `A` to `Z`.
    pub fn latin26() -> (a: Alphabet)
        ensures
            a.graphemes@.len() == 26,
            forall|i: int| 0 <= i < 26 ==> #[trigger] a.graphemes@[i]@ == seq![latin_letter(i)],
    {
        let mut graphemes: Vec<String> = Vec::new();
        let mut i: u8 = 0;
        while i < 26
            invariant
                i <= 26,
                graphemes@.len() == i,
                forall|j: int| 0 <= j < i ==> #[trigger] graphemes@[j]@ == seq![latin_letter(j)],
            decreases 26 - i,
        {
            let c = (65u8 + i) as char;
            let mut cs: Vec<char> = Vec::new();
            cs.push(c);
            assert(cs@ =~= seq![latin_letter(i as int)]);
            graphemes.push(crate::text::string_from_chars(&cs));
            i = i + 1;
        }
        Alphabet { graphemes }
    }

    /// A copy of this alphabet.
    pub fn copy(&self) -> (a: Alphabet)
        ensures
            a.graphemes@ == self.graphemes@,
    {
        let graphemes = self.graphemes.clone();
        assert(graphemes@ =~= self.graphemes@);
        Alphabet { graphemes }
    }
}

/// A variant's rule table: letters, their values and counts, board layout.
#[derive(Debug)]
pub struct VariantRules {
    pub name: String,
    pub language: String,
    pub letter_values: Vec<u8>,
    pub tile_distribution: Vec<u8>,
    pub alphabet: Alphabet,
    pub blank_tiles: u8,
    pub rack_size: u8,
    pub width: u8,
    pub height: u8,
    pub bingo_bonus: u32,
    pub premiums: Vec<Premium>,
}

impl VariantRules {
    /// The tables have the lengths the rest of the game indexes by.
    pub open spec fn wf(&self) -> bool {
        &&& self.letter_values@.len() == MAX_ALPHABET_SIZE
        &&& self.tile_distribution@.len() == MAX_ALPHABET_SIZE
        &&& self.premiums@.len() == BOARD_CELLS
        &&& self.alphabet.graphemes@.len() <= MAX_ALPHABET_SIZE
    }
}

// ----- moves -----

#[derive(Clone, Copy, Debug, PartialEq, Eq, Structural)]
pub struct Position {
    pub x: u8,
    pub y: u8,
}

#[derive(Clone, Copy, Debug, PartialEq, Eq, Structural)]
pub enum Direction {
    Horizontal,
    Vertical,
}

/// One tile of a move, `offset` squares from the move's start.
#[derive(Clone, Copy, Debug, PartialEq, Eq, Structural)]
pub struct TilePlacement {
    pub offset: u8,
    pub tile: Tile,
}

/// A proposed placement move.
#[derive(Debug)]
pub struct MoveCandidate {
    pub start: Position,
    pub direction: Direction,
    pub tiles: Vec<TilePlacement>,
}

/// What the rules engine reports for a legal move: its total score and
/// the main word it forms.
#[derive(Debug)]
pub struct MoveValidation {
    pub score_total: u32,
    pub main_word: String,
}

// ----- the official variant -----

/// Letter values of the official variant, `A` to `Z`, then unused slots.
pub open spec fn official_values() -> Seq<u8> {
    seq![1u8, 3, 3, 2, 1, 4, 2, 4, 1, 8, 5, 1, 3, 1, 1, 3, 10, 1, 1, 1, 1, 4, 4, 8, 4, 10,
        0, 0, 0, 0, 0, 0]
}

/// Tile counts of the official variant, `A` to `Z`, then unused slots.
pub open spec fn official_distribution() -> Seq<u8> {
    seq![9u8, 2, 2, 4, 12, 2, 3, 2, 9, 1, 1, 4, 2, 6, 8, 2, 1, 6, 4, 6, 4, 2, 2, 1, 2, 1,
        0, 0, 0, 0, 0, 0]
}

/// Distance of a row or column from the nearer edge, up to the centre line.
pub open spec fn fold_edge(c: int) -> int {
    if c <= 7 { c } else { 14 - c }
}

/// The official board's premium at column `x`, row `y`. The layout is
/// symmetric in both axes and the diagonal, so it is given for the
/// folded distances `p <= q` from the edges.
pub open spec fn official_premium(x: int, y: int) -> Premium {
    let a = fold_edge(x);
    let b = fold_edge(y);
    let p = if a <= b { a } else { b };
    let q = if a <= b { b } else { a };
    if p == 0 && (q == 0 || q == 7) {
        Premium::TripleWord
    } else if p == q && ((1 <= p && p <= 4) || p == 7) {
        Premium::DoubleWord
    } else if (p == 1 && q == 5) || (p == 5 && q == 5) {
        Premium::TripleLetter
    } else if (p == 0 && q == 3) || (p == 2 && q == 6) || (p == 3 && q == 7) || (p == 6 && q == 6) {
        Premium::DoubleLetter
    } else {
        Premium::Blank
    }
}

fn official_premium_at(x: u8, y: u8) -> (r: Premium)
    requires
        x < 15,
        y < 15,
    ensures
        r == official_premium(x as int, y as int),
{
    let a = if x <= 7 { x } else { 14 - x };
    let b = if y <= 7 { y } else { 14 - y };
    let p = if a <= b { a } else { b };
    let q = if a <= b { b } else { a };
    if p == 0 && (q == 0 || q == 7) {
        Premium::TripleWord
    } else if p == q && ((1 <= p && p <= 4) || p == 7) {
        Premium::DoubleWord
    } else if (p == 1 && q == 5) || (p == 5 && q == 5) {
        Premium::TripleLetter
    } else if (p == 0 && q == 3) || (p == 2 && q == 6) || (p == 3 && q == 7) || (p == 6 && q == 6) {
        Premium::DoubleLetter
    } else {
        Premium::Blank
    }
}

impl VariantRules {
    /// The official variant: the standard English letter values and tile
    /// counts, two blanks, racks of seven, a 15 by 15 board with the
    /// standard premium layout and a 50-point bonus for using all seven.
    pub fn official() -> (r: VariantRules)
        ensures
            r.wf(),
            r.name@ == "official"@,
            r.language@ == "sowpods"@,
            r.letter_values@ == official_values(),
            r.tile_distribution@ == official_distribution(),
            r.alphabet.graphemes@.len() == 26,
            forall|i: int| 0 <= i < 26 ==> #[trigger] r.alphabet.graphemes@[i]@ == seq![latin_letter(i)],
            r.blank_tiles == 2,
            r.rack_size == 7,
            r.width == 15,
            r.height == 15,
            r.bingo_bonus == 50,
            forall|i: int| 0 <= i < BOARD_CELLS ==> #[trigger] r.premiums@[i] == official_premium(i % 15, i / 15),
    {
        let letter_values: Vec<u8> = vec![1u8, 3, 3, 2, 1, 4, 2, 4, 1, 8, 5, 1, 3, 1, 1, 3, 10, 1, 1, 1, 1, 4,
            4, 8, 4, 10, 0, 0, 0, 0, 0, 0];
        let tile_distribution: Vec<u8> = vec![9u8, 2, 2, 4, 12, 2, 3, 2, 9, 1, 1, 4, 2, 6, 8, 2, 1, 6, 4, 6,
            4, 2, 2, 1, 2, 1, 0, 0, 0, 0, 0, 0];
        assert(letter_values@ =~= official_values());
        assert(tile_distribution@ =~= official_distribution());
        let mut premiums: Vec<Premium> = Vec::new();
        let mut i: usize = 0;
        while i < BOARD_CELLS
            invariant
                i <= BOARD_CELLS,
                premiums@.len() == i,
                forall|j: int| 0 <= j < i ==> #[trigger] premiums@[j] == official_premium(j % 15, j / 15),
            decreases BOARD_CELLS - i,
        {
            let x = (i % 15) as u8;
            let y = (i / 15) as u8;
            premiums.push(official_premium_at(x, y));
            i = i + 1;
        }
        VariantRules {
            name: owned("official"),
            language: owned("sowpods"),
            letter_values,
            tile_distribution,
            alphabet: Alphabet::latin26(),
            blank_tiles: 2,
            rack_size: 7,
            width: 15,
            height: 15,
            bingo_bonus: 50,
            premiums,
        }
    }
}

} // verus!
