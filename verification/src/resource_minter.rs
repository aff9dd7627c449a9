//! Resource harvesting: a ship's harvest over a nebula layout credits the
//! owner's resource balances and lists the largest harvested resource on the
//! DEX offer hook in the same call.
//!
//! [`MinterEnv`] holds what these operations read and change: the minter's
//! counters, resource balances and DEX offers, the ledger timestamp, the
//! contract's own address, the published events and the addresses whose
//! authorization was demanded.  The ship registry belongs to the ship module:
//! a harvest is handed the owner it records for the ship.
use vstd::prelude::*;
use crate::values::{Address, Symbol};
use crate::staging::{staged_items, staged_len, staged_new, staged_push, staged_remove};

verus! {

broadcast use vstd::array::group_array_axioms;

/// A resource identifier.
pub type AssetId = Symbol;

/// Storage keys of the minter.  `ResourceCounter`, `HarvestCounter` and
/// `DexOfferCounter` name the counters of [`MinterEnv`]; `ResourceBalance`
/// names an entry of [`MinterEnv::balances`]; `DexOffer` an entry of
/// [`MinterEnv::dex_offers`].
#[derive(Clone, Copy, Debug, PartialEq, Eq)]
pub enum ResourceKey {
    ResourceCounter,
    HarvestCounter,
    DexOfferCounter,
    ResourceBalance(Address, AssetId),
    DexOffer(u64),
}

/// Errors of harvesting and listing.  `PriceOverflow` is part of the error
/// vocabulary but no operation returns it.
#[derive(Clone, Copy, Debug, PartialEq, Eq)]
pub enum HarvestError {
    ShipNotFound,
    EmptyHarvest,
    InvalidPrice,
    AssetNotHarvested,
    PriceOverflow,
}

impl HarvestError {
    /// The numeric contract error code.
    pub fn code(&self) -> (c: u32)
        ensures
            c == match *self {
                HarvestError::ShipNotFound => 1u32,
                HarvestError::EmptyHarvest => 2,
                HarvestError::InvalidPrice => 3,
                HarvestError::AssetNotHarvested => 4,
                HarvestError::PriceOverflow => 5,
            },
    {
        match self {
            HarvestError::ShipNotFound => 1,
            HarvestError::EmptyHarvest => 2,
            HarvestError::InvalidPrice => 3,
            HarvestError::AssetNotHarvested => 4,
            HarvestError::PriceOverflow => 5,
        }
    }
}

/// Resource data structure for in-game tradeable resources.
#[derive(Clone, Copy, Debug, PartialEq, Eq)]
pub struct Resource {
    pub id: u64,
    pub owner: Address,
    pub resource_type: u32,
    pub quantity: u32,
}

/// A quantity of one resource.
#[derive(Clone, Copy, Debug, PartialEq, Eq)]
pub struct HarvestedResource {
    pub asset: AssetId,
    pub quantity: i128,
}

/// An offer listed on the DEX offer hook.
#[derive(Clone, Copy, Debug, PartialEq, Eq)]
pub struct DexOffer {
    pub offer_id: u64,
    pub seller: Address,
    pub resource: AssetId,
    pub quantity: i128,
    pub min_price: i128,
    pub quote_asset: Symbol,
    pub timestamp: u64,
}

/// The outcome of a harvest.
#[derive(Debug, PartialEq, Eq)]
pub struct HarvestResult {
    pub ship_id: u64,
    pub owner: Address,
    pub resources: Vec<HarvestedResource>,
    pub total_units: i128,
    pub auto_offer: DexOffer,
    pub harvested_at: u64,
}

/// Mathematical view of a [`HarvestResult`].
pub ghost struct HarvestReport {
    pub ship_id: u64,
    pub owner: Address,
    pub resources: Seq<HarvestedResource>,
    pub total_units: i128,
    pub auto_offer: DexOffer,
    pub harvested_at: u64,
}

impl View for HarvestResult {
    type V = HarvestReport;

    open spec fn view(&self) -> HarvestReport {
        HarvestReport {
            ship_id: self.ship_id,
            owner: self.owner,
            resources: self.resources@,
            total_units: self.total_units,
            auto_offer: self.auto_offer,
            harvested_at: self.harvested_at,
        }
    }
}

/// The kind of a nebula layout cell.
#[derive(Clone, Copy, Debug, PartialEq, Eq)]
pub enum CellType {
    Empty,
    Star,
    Asteroid,
    GasCloud,
    DarkMatter,
    ExoticMatter,
    Wormhole,
    StellarDust,
}

/// One cell of a nebula layout.
#[derive(Clone, Copy, Debug, PartialEq, Eq)]
pub struct NebulaCell {
    pub cell_type: CellType,
    pub energy: u32,
}

/// A generated nebula layout.
#[derive(Debug, PartialEq, Eq)]
pub struct NebulaLayout {
    pub cells: Vec<NebulaCell>,
    pub total_energy: u32,
}

/// A stored resource balance: `owner` holds `amount` of `asset`.
#[derive(Clone, Copy, Debug, PartialEq, Eq)]
pub struct BalanceEntry {
    pub owner: Address,
    pub asset: AssetId,
    pub amount: i128,
}

/// Events published by the minter.
#[derive(Debug, PartialEq, Eq)]
pub enum MinterEvent {
    /// `harvest`/`done`: ship `ship_id` of `owner` harvested `resources`,
    /// `total_units` in all, from a layout of `total_energy`.
    Harvested {
        ship_id: u64,
        owner: Address,
        resources: Vec<HarvestedResource>,
        total_units: i128,
        total_energy: u32,
    },
    /// `dex`/`listed`: the offer was listed (the event carries all of it but
    /// the timestamp).
    Listed(DexOffer),
}

/// Mathematical view of a [`MinterEvent`].
pub ghost enum MinterEventView {
    Harvested {
        ship_id: u64,
        owner: Address,
        resources: Seq<HarvestedResource>,
        total_units: i128,
        total_energy: u32,
    },
    Listed(DexOffer),
}

impl View for MinterEvent {
    type V = MinterEventView;

    open spec fn view(&self) -> MinterEventView {
        match self {
            MinterEvent::Harvested { ship_id, owner, resources, total_units, total_energy } => MinterEventView::Harvested {
                ship_id: *ship_id,
                owner: *owner,
                resources: resources@,
                total_units: *total_units,
                total_energy: *total_energy,
            },
            MinterEvent::Listed(o) => MinterEventView::Listed(*o),
        }
    }
}

/// The part of the contract environment the minter operations read and change.
pub struct MinterEnv {
    pub resource_counter: Option<u64>,
    pub harvest_counter: Option<u64>,
    pub dex_offer_counter: Option<u64>,
    /// `ResourceBalance` entries, oldest first; for each (owner, asset) the
    /// last entry is the stored one.
    pub balances: Vec<BalanceEntry>,
    /// `DexOffer` entries, oldest first; for each offer id the last entry is
    /// the stored one.
    pub dex_offers: Vec<DexOffer>,
    /// The current ledger timestamp.
    pub ledger_timestamp: u64,
    /// The address of the running contract.
    pub contract_address: Address,
    /// Published events, oldest first.
    pub events: Vec<MinterEvent>,
    /// Addresses whose authorization was demanded, oldest first.
    pub auths: Vec<Address>,
}

/// Mathematical view of a [`MinterEnv`].
pub ghost struct MinterState {
    pub resource_counter: Option<u64>,
    pub harvest_counter: Option<u64>,
    pub dex_offer_counter: Option<u64>,
    pub balances: Seq<BalanceEntry>,
    pub dex_offers: Seq<DexOffer>,
    pub ledger_timestamp: u64,
    pub contract_address: Address,
    pub events: Seq<MinterEventView>,
    pub auths: Seq<Address>,
}

pub open spec fn event_views(events: Seq<MinterEvent>) -> Seq<MinterEventView> {
    events.map_values(|e: MinterEvent| e@)
}

impl View for MinterEnv {
    type V = MinterState;

    open spec fn view(&self) -> MinterState {
        MinterState {
            resource_counter: self.resource_counter,
            harvest_counter: self.harvest_counter,
            dex_offer_counter: self.dex_offer_counter,
            balances: self.balances@,
            dex_offers: self.dex_offers@,
            ledger_timestamp: self.ledger_timestamp,
            contract_address: self.contract_address,
            events: event_views(self.events@),
            auths: self.auths@,
        }
    }
}

// ─── Assets ─────────────────────────────────────────────────────────────────

/// The resources a harvest yields, in the order they are credited.
#[derive(Clone, Copy, Debug, PartialEq, Eq)]
pub enum HarvestAsset {
    StellarDust,
    AsteroidOre,
    GasUnits,
    DarkMatter,
    ExoticMatter,
    WormholeCore,
}

/// The symbol of each harvested resource: `dust`, `ore`, `gas`, `dark`,
/// `exotic`, `worm`.
pub open spec fn asset_symbol(a: HarvestAsset) -> Symbol {
    match a {
        HarvestAsset::StellarDust => Symbol { chars: [100u8, 117, 115, 116, 0, 0, 0, 0, 0, 0, 0, 0, 0, 0, 0, 0, 0, 0, 0, 0, 0, 0, 0, 0, 0, 0, 0, 0, 0, 0, 0, 0] },
        HarvestAsset::AsteroidOre => Symbol { chars: [111u8, 114, 101, 0, 0, 0, 0, 0, 0, 0, 0, 0, 0, 0, 0, 0, 0, 0, 0, 0, 0, 0, 0, 0, 0, 0, 0, 0, 0, 0, 0, 0] },
        HarvestAsset::GasUnits => Symbol { chars: [103u8, 97, 115, 0, 0, 0, 0, 0, 0, 0, 0, 0, 0, 0, 0, 0, 0, 0, 0, 0, 0, 0, 0, 0, 0, 0, 0, 0, 0, 0, 0, 0] },
        HarvestAsset::DarkMatter => Symbol { chars: [100u8, 97, 114, 107, 0, 0, 0, 0, 0, 0, 0, 0, 0, 0, 0, 0, 0, 0, 0, 0, 0, 0, 0, 0, 0, 0, 0, 0, 0, 0, 0, 0] },
        HarvestAsset::ExoticMatter => Symbol { chars: [101u8, 120, 111, 116, 105, 99, 0, 0, 0, 0, 0, 0, 0, 0, 0, 0, 0, 0, 0, 0, 0, 0, 0, 0, 0, 0, 0, 0, 0, 0, 0, 0] },
        HarvestAsset::WormholeCore => Symbol { chars: [119u8, 111, 114, 109, 0, 0, 0, 0, 0, 0, 0, 0, 0, 0, 0, 0, 0, 0, 0, 0, 0, 0, 0, 0, 0, 0, 0, 0, 0, 0, 0, 0] },
    }
}

/// The quote asset of DEX offers: `xlm`.
pub open spec fn quote_asset() -> Symbol {
    Symbol { chars: [120u8, 108, 109, 0, 0, 0, 0, 0, 0, 0, 0, 0, 0, 0, 0, 0, 0, 0, 0, 0, 0, 0, 0, 0, 0, 0, 0, 0, 0, 0, 0, 0] }
}

impl HarvestAsset {
    /// The symbol of this resource.
    pub fn symbol(&self) -> (s: Symbol)
        ensures
            s == asset_symbol(*self),
    {
        match self {
            HarvestAsset::StellarDust => Symbol { chars: [100u8, 117, 115, 116, 0, 0, 0, 0, 0, 0, 0, 0, 0, 0, 0, 0, 0, 0, 0, 0, 0, 0, 0, 0, 0, 0, 0, 0, 0, 0, 0, 0] },
            HarvestAsset::AsteroidOre => Symbol { chars: [111u8, 114, 101, 0, 0, 0, 0, 0, 0, 0, 0, 0, 0, 0, 0, 0, 0, 0, 0, 0, 0, 0, 0, 0, 0, 0, 0, 0, 0, 0, 0, 0] },
            HarvestAsset::GasUnits => Symbol { chars: [103u8, 97, 115, 0, 0, 0, 0, 0, 0, 0, 0, 0, 0, 0, 0, 0, 0, 0, 0, 0, 0, 0, 0, 0, 0, 0, 0, 0, 0, 0, 0, 0] },
            HarvestAsset::DarkMatter => Symbol { chars: [100u8, 97, 114, 107, 0, 0, 0, 0, 0, 0, 0, 0, 0, 0, 0, 0, 0, 0, 0, 0, 0, 0, 0, 0, 0, 0, 0, 0, 0, 0, 0, 0] },
            HarvestAsset::ExoticMatter => Symbol { chars: [101u8, 120, 111, 116, 105, 99, 0, 0, 0, 0, 0, 0, 0, 0, 0, 0, 0, 0, 0, 0, 0, 0, 0, 0, 0, 0, 0, 0, 0, 0, 0, 0] },
            HarvestAsset::WormholeCore => Symbol { chars: [119u8, 111, 114, 109, 0, 0, 0, 0, 0, 0, 0, 0, 0, 0, 0, 0, 0, 0, 0, 0, 0, 0, 0, 0, 0, 0, 0, 0, 0, 0, 0, 0] },
        }
    }
}

fn quote_asset_symbol() -> (s: Symbol)
    ensures
        s == quote_asset(),
{
    Symbol { chars: [120u8, 108, 109, 0, 0, 0, 0, 0, 0, 0, 0, 0, 0, 0, 0, 0, 0, 0, 0, 0, 0, 0, 0, 0, 0, 0, 0, 0, 0, 0, 0, 0] }
}

proof fn lemma_asset_symbols_distinct(a: HarvestAsset, b: HarvestAsset)
    ensures
        asset_symbol(a) == asset_symbol(b) <==> a == b,
{
    if a != b {
        assert(asset_symbol(a).chars@[0] != asset_symbol(b).chars@[0] || asset_symbol(a).chars@[1] != asset_symbol(
            b,
        ).chars@[1]);
    }
}

/// Listing price of `asset`: worm 5 000, exotic 1 500, dark 600, dust 90,
/// gas 70, anything else 50.
pub open spec fn listing_price(asset: Symbol) -> i128 {
    if asset == asset_symbol(HarvestAsset::WormholeCore) {
        5_000
    } else if asset == asset_symbol(HarvestAsset::ExoticMatter) {
        1_500
    } else if asset == asset_symbol(HarvestAsset::DarkMatter) {
        600
    } else if asset == asset_symbol(HarvestAsset::StellarDust) {
        90
    } else if asset == asset_symbol(HarvestAsset::GasUnits) {
        70
    } else {
        50
    }
}

/// The listing price of `asset`.
pub fn listing_price_for(asset: &AssetId) -> (price: i128)
    ensures
        price == listing_price(*asset),
{
    if asset.same_as(&HarvestAsset::WormholeCore.symbol()) {
        5_000
    } else if asset.same_as(&HarvestAsset::ExoticMatter.symbol()) {
        1_500
    } else if asset.same_as(&HarvestAsset::DarkMatter.symbol()) {
        600
    } else if asset.same_as(&HarvestAsset::StellarDust.symbol()) {
        90
    } else if asset.same_as(&HarvestAsset::GasUnits.symbol()) {
        70
    } else {
        50
    }
}

// ─── Balances and counters ──────────────────────────────────────────────────

/// The balance stored for (`owner`, `asset`): the amount of the last entry for them.
pub open spec fn stored_balance(entries: Seq<BalanceEntry>, owner: Address, asset: Symbol) -> Option<i128>
    decreases entries.len(),
{
    if entries.len() == 0 {
        None
    } else if entries.last().owner == owner && entries.last().asset == asset {
        Some(entries.last().amount)
    } else {
        stored_balance(entries.drop_last(), owner, asset)
    }
}

/// `owner`'s balance of `asset`: the stored one, or 0.
pub open spec fn balance_of(s: MinterState, owner: Address, asset: Symbol) -> i128 {
    match stored_balance(s.balances, owner, asset) {
        Some(a) => a,
        None => 0,
    }
}

/// `s` with `owner`'s balance of `asset` set to `amount`.
pub open spec fn with_balance(s: MinterState, owner: Address, asset: Symbol, amount: i128) -> MinterState {
    MinterState { balances: s.balances.push(BalanceEntry { owner, asset, amount }), ..s }
}

/// A counter's value: the stored one, or 0.
pub open spec fn counter_value(c: Option<u64>) -> u64 {
    match c {
        Some(v) => v,
        None => 0,
    }
}

/// Reading a balance after setting it gives the amount that was set; the
/// balances of every other (owner, asset) pair are unchanged by the write.
pub proof fn lemma_balance_after_set(s: MinterState, owner: Address, asset: Symbol, amount: i128, o: Address, a: Symbol)
    ensures
        balance_of(with_balance(s, owner, asset, amount), o, a) == if o == owner && a == asset {
            amount
        } else {
            balance_of(s, o, a)
        },
{
    let e = BalanceEntry { owner, asset, amount };
    assert(s.balances.push(e).drop_last() =~= s.balances);
}

/// A balance that was never written reads as 0.
pub proof fn lemma_unwritten_balance_is_zero(s: MinterState, o: Address, a: Symbol)
    requires
        forall|i: int| 0 <= i < s.balances.len() ==> !(#[trigger] s.balances[i].owner == o && s.balances[i].asset == a),
    ensures
        balance_of(s, o, a) == 0,
    decreases s.balances.len(),
{
    if s.balances.len() > 0 {
        let rest = MinterState { balances: s.balances.drop_last(), ..s };
        assert(s.balances.last() == s.balances[s.balances.len() - 1]);
        assert forall|i: int| 0 <= i < rest.balances.len() implies !(#[trigger] rest.balances[i].owner == o && rest.balances[i].asset == a) by {
            assert(rest.balances[i] == s.balances[i]);
        }
        lemma_unwritten_balance_is_zero(rest, o, a);
    }
}

fn next_counter(counter: &mut Option<u64>) -> (next: u64)
    requires
        counter_value(*old(counter)) < u64::MAX,
    ensures
        next == counter_value(*old(counter)) + 1,
        *final(counter) == Some(next),
{
    let current: u64 = match *counter {
        Some(c) => c,
        None => 0,
    };
    let next: u64 = current + 1;
    *counter = Some(next);
    next
}

fn get_balance(env: &MinterEnv, owner: &Address, asset: &AssetId) -> (amount: i128)
    ensures
        amount == balance_of(env@, *owner, *asset),
{
    let mut i: usize = env.balances.len();
    assert(env.balances@.take(i as int) =~= env.balances@);
    while i > 0
        invariant
            i <= env.balances.len(),
            stored_balance(env.balances@, *owner, *asset) == stored_balance(env.balances@.take(i as int), *owner, *asset),
        decreases i,
    {
        let e = env.balances[i - 1];
        assert(env.balances@.take(i as int).drop_last() =~= env.balances@.take(i - 1));
        if e.owner.same_as(owner) && e.asset.same_as(asset) {
            return e.amount;
        }
        i -= 1;
    }
    0
}

fn set_balance(env: &mut MinterEnv, owner: &Address, asset: &AssetId, qty: i128)
    ensures
        final(env)@ == with_balance(old(env)@, *owner, *asset, qty),
{
    env.balances.push(BalanceEntry { owner: *owner, asset: *asset, amount: qty });
}

/// `s` with `quantity` added to `owner`'s balance of `asset`, when positive.
pub open spec fn credited(s: MinterState, owner: Address, asset: Symbol, quantity: i128) -> MinterState {
    if quantity > 0 {
        with_balance(s, owner, asset, (balance_of(s, owner, asset) + quantity) as i128)
    } else {
        s
    }
}

fn add_balance(env: &mut MinterEnv, owner: &Address, asset: &AssetId, quantity: i128)
    requires
        quantity > 0 ==> balance_of(old(env)@, *owner, *asset) + quantity <= i128::MAX,
    ensures
        final(env)@ == credited(old(env)@, *owner, *asset, quantity),
{
    if quantity <= 0 {
        return;
    }
    let old: i128 = get_balance(env, owner, asset);
    set_balance(env, owner, asset, old + quantity);
}

// ─── Listing ────────────────────────────────────────────────────────────────

/// Whether `s[k]` is the resource a harvest lists: the first of the largest
/// positive quantities.
pub open spec fn is_listing_choice(s: Seq<HarvestedResource>, k: int) -> bool {
    &&& 0 <= k < s.len()
    &&& s[k].quantity > 0
    &&& forall|j: int| 0 <= j < k && s[j].quantity > 0 ==> s[j].quantity < s[k].quantity
    &&& forall|j: int| k < j < s.len() && s[j].quantity > 0 ==> s[j].quantity <= s[k].quantity
}

/// The index of the resource a harvest lists.
pub open spec fn listing_index(s: Seq<HarvestedResource>) -> int {
    choose|k: int| is_listing_choice(s, k)
}

proof fn lemma_listing_choice_unique(s: Seq<HarvestedResource>, k1: int, k2: int)
    requires
        is_listing_choice(s, k1),
        is_listing_choice(s, k2),
    ensures
        k1 == k2,
{
}

/// The harvested resource to list: the first of the largest positive
/// quantities, or none when no quantity is positive.
pub fn choose_listing_asset(resources: &Vec<HarvestedResource>) -> (best: Option<HarvestedResource>)
    ensures
        best is None <==> forall|i: int| 0 <= i < resources@.len() ==> resources@[i].quantity <= 0,
        best matches Some(b) ==> exists|k: int| is_listing_choice(resources@, k) && resources@[k] == b,
{
    let mut best: Option<HarvestedResource> = None;
    let ghost mut best_k: int = 0;
    let mut i: usize = 0;
    while i < resources.len()
        invariant
            i <= resources.len(),
            best is None <==> forall|j: int| 0 <= j < i ==> resources@[j].quantity <= 0,
            best is Some ==> {
                &&& 0 <= best_k < i
                &&& resources@[best_k] == best->0
                &&& resources@[best_k].quantity > 0
                &&& forall|j: int| 0 <= j < best_k && resources@[j].quantity > 0 ==> resources@[j].quantity < resources@[best_k].quantity
                &&& forall|j: int| best_k < j < i && resources@[j].quantity > 0 ==> resources@[j].quantity <= resources@[best_k].quantity
            },
        decreases resources.len() - i,
    {
        let item = resources[i];
        if item.quantity > 0 {
            match best {
                None => {
                    best = Some(item);
                    proof {
                        best_k = i as int;
                    }
                },
                Some(current) => {
                    if item.quantity > current.quantity {
                        best = Some(item);
                        proof {
                            best_k = i as int;
                        }
                    }
                },
            }
        }
        i += 1;
    }
    proof {
        if best is Some {
            assert(is_listing_choice(resources@, best_k));
        }
    }
    best
}

/// Whether a listing of `resource` by `owner` at `min_price` can run on `s`
/// without overflowing the offer counter.
pub open spec fn listing_fits(s: MinterState, owner: Address, resource: Symbol, min_price: i128) -> bool {
    min_price > 0 && balance_of(s, owner, resource) > 0 ==> counter_value(s.dex_offer_counter) < u64::MAX
}

/// Effect and result of listing `owner`'s `resource` at `min_price`: up to
/// 100 units of the owner's positive balance move into a new offer quoted in
/// `xlm`, numbered by the offer counter.
pub open spec fn listing_step(s: MinterState, owner: Address, resource: Symbol, min_price: i128) -> (MinterState, Result<DexOffer, HarvestError>) {
    if min_price <= 0 {
        (s, Err(HarvestError::InvalidPrice))
    } else {
        let available: i128 = balance_of(s, owner, resource);
        if available <= 0 {
            (s, Err(HarvestError::AssetNotHarvested))
        } else {
            let quantity: i128 = if available > 100 { 100 } else { available };
            let offer_id: u64 = (counter_value(s.dex_offer_counter) + 1) as u64;
            let offer = DexOffer {
                offer_id,
                seller: owner,
                resource,
                quantity,
                min_price,
                quote_asset: quote_asset(),
                timestamp: s.ledger_timestamp,
            };
            (
                MinterState {
                    dex_offer_counter: Some(offer_id),
                    dex_offers: s.dex_offers.push(offer),
                    events: s.events.push(MinterEventView::Listed(offer)),
                    ..with_balance(s, owner, resource, (available - quantity) as i128)
                },
                Ok(offer),
            )
        }
    }
}

fn auto_list_on_dex_for_owner(env: &mut MinterEnv, owner: &Address, resource: &AssetId, min_price: i128) -> (r: Result<DexOffer, HarvestError>)
    requires
        listing_fits(old(env)@, *owner, *resource, min_price),
    ensures
        (final(env)@, r) == listing_step(old(env)@, *owner, *resource, min_price),
{
    if min_price <= 0 {
        return Err(HarvestError::InvalidPrice);
    }
    let available: i128 = get_balance(env, owner, resource);
    if available <= 0 {
        return Err(HarvestError::AssetNotHarvested);
    }
    let qty_to_list: i128 = if available > 100 { 100 } else { available };
    set_balance(env, owner, resource, available - qty_to_list);
    let offer_id: u64 = next_counter(&mut env.dex_offer_counter);
    let offer = DexOffer {
        offer_id,
        seller: *owner,
        resource: *resource,
        quantity: qty_to_list,
        min_price,
        quote_asset: quote_asset_symbol(),
        timestamp: env.ledger_timestamp,
    };
    env.dex_offers.push(offer);
    let ghost before = env.events@;
    env.events.push(MinterEvent::Listed(offer));
    assert(event_views(env.events@) =~= event_views(before).push(MinterEventView::Listed(offer)));
    Ok(offer)
}

/// List the contract's own balance of `resource` on the DEX offer hook at
/// `min_price`: the contract acts as custodian of harvested resources.
pub fn auto_list_on_dex(env: &mut MinterEnv, resource: &AssetId, min_price: i128) -> (r: Result<DexOffer, HarvestError>)
    requires
        listing_fits(old(env)@, old(env)@.contract_address, *resource, min_price),
    ensures
        (final(env)@, r) == listing_step(old(env)@, old(env)@.contract_address, *resource, min_price),
{
    if min_price <= 0 {
        return Err(HarvestError::InvalidPrice);
    }
    let owner = env.contract_address;
    auto_list_on_dex_for_owner(env, &owner, resource, min_price)
}

// ─── Harvest ────────────────────────────────────────────────────────────────

/// Units of resource `a` that cell `c` yields: a star 2 + energy/20 dust, an
/// asteroid 3 + energy/15 ore, a gas cloud 2 + energy/16 gas, dark matter
/// 1 + energy/25 dark, exotic matter 1 + energy/30 exotic, a wormhole 1 worm,
/// stellar dust 1 + energy/18 dust, an empty cell nothing.
pub open spec fn cell_yield(c: NebulaCell, a: HarvestAsset) -> int {
    let e: int = c.energy as int;
    match c.cell_type {
        CellType::Star => if a == HarvestAsset::StellarDust { 2 + e / 20 } else { 0 },
        CellType::Asteroid => if a == HarvestAsset::AsteroidOre { 3 + e / 15 } else { 0 },
        CellType::GasCloud => if a == HarvestAsset::GasUnits { 2 + e / 16 } else { 0 },
        CellType::DarkMatter => if a == HarvestAsset::DarkMatter { 1 + e / 25 } else { 0 },
        CellType::ExoticMatter => if a == HarvestAsset::ExoticMatter { 1 + e / 30 } else { 0 },
        CellType::Wormhole => if a == HarvestAsset::WormholeCore { 1 } else { 0 },
        CellType::StellarDust => if a == HarvestAsset::StellarDust { 1 + e / 18 } else { 0 },
        CellType::Empty => 0,
    }
}

/// Units of resource `a` a layout with `cells` yields: the sum over its cells.
pub open spec fn layout_yield(cells: Seq<NebulaCell>, a: HarvestAsset) -> int
    decreases cells.len(),
{
    if cells.len() == 0 {
        0
    } else {
        layout_yield(cells.drop_last(), a) + cell_yield(cells.last(), a)
    }
}

/// Units of all resources a layout with `cells` yields.
pub open spec fn total_yield(cells: Seq<NebulaCell>) -> int {
    layout_yield(cells, HarvestAsset::StellarDust) + layout_yield(cells, HarvestAsset::AsteroidOre)
        + layout_yield(cells, HarvestAsset::GasUnits) + layout_yield(cells, HarvestAsset::DarkMatter)
        + layout_yield(cells, HarvestAsset::ExoticMatter) + layout_yield(cells, HarvestAsset::WormholeCore)
}

/// `items` with `quantity` units of `a` appended, when positive.
pub open spec fn stage(items: Seq<HarvestedResource>, a: HarvestAsset, quantity: int) -> Seq<HarvestedResource> {
    if quantity > 0 {
        items.push(HarvestedResource { asset: asset_symbol(a), quantity: quantity as i128 })
    } else {
        items
    }
}

/// The resources a layout with `cells` yields: each resource with a positive
/// yield, in the order dust, ore, gas, dark, exotic, worm.
pub open spec fn harvested(cells: Seq<NebulaCell>) -> Seq<HarvestedResource> {
    stage(
        stage(
            stage(
                stage(
                    stage(
                        stage(Seq::empty(), HarvestAsset::StellarDust, layout_yield(cells, HarvestAsset::StellarDust)),
                        HarvestAsset::AsteroidOre,
                        layout_yield(cells, HarvestAsset::AsteroidOre),
                    ),
                    HarvestAsset::GasUnits,
                    layout_yield(cells, HarvestAsset::GasUnits),
                ),
                HarvestAsset::DarkMatter,
                layout_yield(cells, HarvestAsset::DarkMatter),
            ),
            HarvestAsset::ExoticMatter,
            layout_yield(cells, HarvestAsset::ExoticMatter),
        ),
        HarvestAsset::WormholeCore,
        layout_yield(cells, HarvestAsset::WormholeCore),
    )
}

/// `s` with `owner`'s balance of `a` raised by `a`'s yield over `cells`, when positive.
pub open spec fn credit_yield(s: MinterState, owner: Address, cells: Seq<NebulaCell>, a: HarvestAsset) -> MinterState {
    credited(s, owner, asset_symbol(a), layout_yield(cells, a) as i128)
}

/// `s` with every yield over `cells` credited to `owner`, in harvest order.
pub open spec fn credit_harvest(s: MinterState, owner: Address, cells: Seq<NebulaCell>) -> MinterState {
    credit_yield(
        credit_yield(
            credit_yield(
                credit_yield(
                    credit_yield(credit_yield(s, owner, cells, HarvestAsset::StellarDust), owner, cells, HarvestAsset::AsteroidOre),
                    owner,
                    cells,
                    HarvestAsset::GasUnits,
                ),
                owner,
                cells,
                HarvestAsset::DarkMatter,
            ),
            owner,
            cells,
            HarvestAsset::ExoticMatter,
        ),
        owner,
        cells,
        HarvestAsset::WormholeCore,
    )
}

/// `s` with `who`'s authorization demanded.
pub open spec fn demand_auth(s: MinterState, who: Address) -> MinterState {
    MinterState { auths: s.auths.push(who), ..s }
}

/// The resource a harvest over `cells` lists.
pub open spec fn listed_resource(cells: Seq<NebulaCell>) -> HarvestedResource {
    harvested(cells)[listing_index(harvested(cells))]
}

/// Whether a harvest by `ship_owner` over `cells` can run on `s` without
/// overflowing a counter or a balance.
pub open spec fn harvest_fits(s: MinterState, ship_owner: Option<Address>, cells: Seq<NebulaCell>) -> bool {
    match ship_owner {
        None => true,
        Some(owner) => harvested(cells).len() > 0 ==> {
            &&& counter_value(s.harvest_counter) < u64::MAX
            &&& forall|a: HarvestAsset| #[trigger] layout_yield(cells, a) > 0
                ==> balance_of(s, owner, asset_symbol(a)) + layout_yield(cells, a) <= i128::MAX
            &&& listing_fits(
                credit_harvest(demand_auth(s, owner), owner, cells),
                owner,
                listed_resource(cells).asset,
                listing_price(listed_resource(cells).asset),
            )
        },
    }
}

/// Effect and result of harvesting ship `ship_id`, whose recorded owner is
/// `ship_owner`, over a layout with `cells` and `total_energy`: the owner
/// must authorize; every positive yield is credited to the owner's balance;
/// the harvest is counted and announced; then the first of the largest
/// harvested resources is listed at its listing price.
pub open spec fn harvest_step(
    s: MinterState,
    ship_id: u64,
    ship_owner: Option<Address>,
    cells: Seq<NebulaCell>,
    total_energy: u32,
) -> (MinterState, Result<HarvestReport, HarvestError>) {
    match ship_owner {
        None => (s, Err(HarvestError::ShipNotFound)),
        Some(owner) => {
            let s1 = demand_auth(s, owner);
            let resources = harvested(cells);
            if resources.len() == 0 {
                (s1, Err(HarvestError::EmptyHarvest))
            } else {
                let total_units: i128 = total_yield(cells) as i128;
                let s2 = credit_harvest(s1, owner, cells);
                let s3 = MinterState {
                    harvest_counter: Some((counter_value(s.harvest_counter) + 1) as u64),
                    events: s2.events.push(
                        MinterEventView::Harvested { ship_id, owner, resources, total_units, total_energy },
                    ),
                    ..s2
                };
                let chosen = listed_resource(cells);
                let (s4, listed) = listing_step(s3, owner, chosen.asset, listing_price(chosen.asset));
                match listed {
                    Err(e) => (s4, Err(e)),
                    Ok(offer) => (
                        s4,
                        Ok(HarvestReport {
                            ship_id,
                            owner,
                            resources,
                            total_units,
                            auto_offer: offer,
                            harvested_at: s.ledger_timestamp,
                        }),
                    ),
                }
            }
        },
    }
}

/// A harvest result, by its view.
pub open spec fn report_of(r: Result<HarvestResult, HarvestError>) -> Result<HarvestReport, HarvestError> {
    match r {
        Ok(x) => Ok(x@),
        Err(e) => Err(e),
    }
}

/// The largest number of units one cell yields of any resource.
pub const MAX_CELL_YIELD: i128 = 300_000_000;

proof fn lemma_cell_yield_bounds(c: NebulaCell, a: HarvestAsset)
    ensures
        0 <= cell_yield(c, a) <= MAX_CELL_YIELD,
{
}

proof fn lemma_layout_yield_bounds(cells: Seq<NebulaCell>, a: HarvestAsset)
    ensures
        0 <= layout_yield(cells, a) <= cells.len() * MAX_CELL_YIELD,
    decreases cells.len(),
{
    if cells.len() > 0 {
        lemma_layout_yield_bounds(cells.drop_last(), a);
        lemma_cell_yield_bounds(cells.last(), a);
    }
}

/// The six yields of a layout.
struct LayoutYields {
    dust: i128,
    ore: i128,
    gas: i128,
    dark: i128,
    exotic: i128,
    worm: i128,
}

fn tally_layout(cells: &Vec<NebulaCell>) -> (y: LayoutYields)
    ensures
        y.dust == layout_yield(cells@, HarvestAsset::StellarDust),
        y.ore == layout_yield(cells@, HarvestAsset::AsteroidOre),
        y.gas == layout_yield(cells@, HarvestAsset::GasUnits),
        y.dark == layout_yield(cells@, HarvestAsset::DarkMatter),
        y.exotic == layout_yield(cells@, HarvestAsset::ExoticMatter),
        y.worm == layout_yield(cells@, HarvestAsset::WormholeCore),
        0 <= y.dust <= cells.len() * MAX_CELL_YIELD,
        0 <= y.ore <= cells.len() * MAX_CELL_YIELD,
        0 <= y.gas <= cells.len() * MAX_CELL_YIELD,
        0 <= y.dark <= cells.len() * MAX_CELL_YIELD,
        0 <= y.exotic <= cells.len() * MAX_CELL_YIELD,
        0 <= y.worm <= cells.len() * MAX_CELL_YIELD,
{
    let mut dust_qty: i128 = 0;
    let mut ore_qty: i128 = 0;
    let mut gas_qty: i128 = 0;
    let mut dark_qty: i128 = 0;
    let mut exotic_qty: i128 = 0;
    let mut worm_qty: i128 = 0;
    let mut i: usize = 0;
    while i < cells.len()
        invariant
            i <= cells.len(),
            dust_qty == layout_yield(cells@.take(i as int), HarvestAsset::StellarDust),
            ore_qty == layout_yield(cells@.take(i as int), HarvestAsset::AsteroidOre),
            gas_qty == layout_yield(cells@.take(i as int), HarvestAsset::GasUnits),
            dark_qty == layout_yield(cells@.take(i as int), HarvestAsset::DarkMatter),
            exotic_qty == layout_yield(cells@.take(i as int), HarvestAsset::ExoticMatter),
            worm_qty == layout_yield(cells@.take(i as int), HarvestAsset::WormholeCore),
            0 <= dust_qty <= i * MAX_CELL_YIELD,
            0 <= ore_qty <= i * MAX_CELL_YIELD,
            0 <= gas_qty <= i * MAX_CELL_YIELD,
            0 <= dark_qty <= i * MAX_CELL_YIELD,
            0 <= exotic_qty <= i * MAX_CELL_YIELD,
            0 <= worm_qty <= i * MAX_CELL_YIELD,
        decreases cells.len() - i,
    {
        let cell = cells[i];
        assert(cells@.take(i + 1).drop_last() =~= cells@.take(i as int));
        assert(cells@.take(i + 1).last() == cell);
        match cell.cell_type {
            CellType::Star => dust_qty += 2 + (cell.energy as i128 / 20),
            CellType::Asteroid => ore_qty += 3 + (cell.energy as i128 / 15),
            CellType::GasCloud => gas_qty += 2 + (cell.energy as i128 / 16),
            CellType::DarkMatter => dark_qty += 1 + (cell.energy as i128 / 25),
            CellType::ExoticMatter => exotic_qty += 1 + (cell.energy as i128 / 30),
            CellType::Wormhole => worm_qty += 1,
            CellType::StellarDust => dust_qty += 1 + (cell.energy as i128 / 18),
            CellType::Empty => {},
        }
        i += 1;
    }
    assert(cells@.take(cells.len() as int) =~= cells@);
    LayoutYields { dust: dust_qty, ore: ore_qty, gas: gas_qty, dark: dark_qty, exotic: exotic_qty, worm: worm_qty }
}

fn get_ship_owner(env: &mut MinterEnv, ship_owner: Option<Address>) -> (r: Result<Address, HarvestError>)
    ensures
        match ship_owner {
            None => final(env)@ == old(env)@ && r == Err::<Address, HarvestError>(HarvestError::ShipNotFound),
            Some(owner) => final(env)@ == demand_auth(old(env)@, owner) && r == Ok::<Address, HarvestError>(owner),
        },
{
    match ship_owner {
        None => Err(HarvestError::ShipNotFound),
        Some(owner) => {
            env.auths.push(owner);
            Ok(owner)
        },
    }
}

fn credit_and_stage(
    env: &mut MinterEnv,
    owner: &Address,
    staged: &mut arrayvec::ArrayVec<HarvestedResource, 6>,
    asset: HarvestAsset,
    quantity: i128,
)
    requires
        staged_items(*old(staged)).len() < 6,
        quantity > 0 ==> balance_of(old(env)@, *owner, asset_symbol(asset)) + quantity <= i128::MAX,
    ensures
        final(env)@ == credited(old(env)@, *owner, asset_symbol(asset), quantity),
        staged_items(*final(staged)) == stage(staged_items(*old(staged)), asset, quantity as int),
{
    if quantity > 0 {
        let symbol = asset.symbol();
        add_balance(env, owner, &symbol, quantity);
        staged_push(staged, HarvestedResource { asset: symbol, quantity });
    }
}

proof fn lemma_credit_elsewhere(s: MinterState, owner: Address, x: Symbol, q: i128, y: Symbol)
    requires
        x != y,
    ensures
        balance_of(credited(s, owner, x, q), owner, y) == balance_of(s, owner, y),
{
    if q > 0 {
        lemma_balance_after_set(s, owner, x, (balance_of(s, owner, x) + q) as i128, owner, y);
    }
}

fn copy_resources(v: &Vec<HarvestedResource>) -> (c: Vec<HarvestedResource>)
    ensures
        c@ == v@,
{
    let mut c: Vec<HarvestedResource> = Vec::new();
    let mut i: usize = 0;
    while i < v.len()
        invariant
            i <= v.len(),
            c@ == v@.take(i as int),
        decreases v.len() - i,
    {
        c.push(v[i]);
        i += 1;
        assert(c@ =~= v@.take(i as int));
    }
    assert(v@.take(v.len() as int) =~= v@);
    c
}

proof fn lemma_credit_keeps_others(s: MinterState, owner: Address, cells: Seq<NebulaCell>, a: HarvestAsset)
    ensures
        forall|b: HarvestAsset| b != a ==> #[trigger] balance_of(credit_yield(s, owner, cells, a), owner, asset_symbol(b))
            == balance_of(s, owner, asset_symbol(b)),
{
    assert forall|b: HarvestAsset| b != a implies #[trigger] balance_of(credit_yield(s, owner, cells, a), owner, asset_symbol(b))
        == balance_of(s, owner, asset_symbol(b)) by {
        lemma_asset_symbols_distinct(a, b);
        lemma_credit_elsewhere(s, owner, asset_symbol(a), layout_yield(cells, a) as i128, asset_symbol(b));
    }
}

proof fn lemma_harvested_nonempty(cells: Seq<NebulaCell>)
    requires
        forall|a: HarvestAsset| #[trigger] layout_yield(cells, a) <= i128::MAX,
    ensures
        forall|a: HarvestAsset| #[trigger] layout_yield(cells, a) > 0 ==> harvested(cells).len() > 0,
        harvested(cells).len() <= 6,
        forall|i: int| 0 <= i < harvested(cells).len() ==> (#[trigger] harvested(cells)[i]).quantity > 0,
{
    let y0: int = layout_yield(cells, HarvestAsset::StellarDust);
    let y1: int = layout_yield(cells, HarvestAsset::AsteroidOre);
    let y2: int = layout_yield(cells, HarvestAsset::GasUnits);
    let y3: int = layout_yield(cells, HarvestAsset::DarkMatter);
    let y4: int = layout_yield(cells, HarvestAsset::ExoticMatter);
    let y5: int = layout_yield(cells, HarvestAsset::WormholeCore);
    let r0 = stage(Seq::empty(), HarvestAsset::StellarDust, y0);
    let r1 = stage(r0, HarvestAsset::AsteroidOre, y1);
    let r2 = stage(r1, HarvestAsset::GasUnits, y2);
    let r3 = stage(r2, HarvestAsset::DarkMatter, y3);
    let r4 = stage(r3, HarvestAsset::ExoticMatter, y4);
    let r5 = stage(r4, HarvestAsset::WormholeCore, y5);
    assert(r5 == harvested(cells));
    assert forall|a: HarvestAsset| #[trigger] layout_yield(cells, a) > 0 implies harvested(cells).len() > 0 by {
        match a {
            HarvestAsset::StellarDust => assert(r0.len() > 0),
            HarvestAsset::AsteroidOre => assert(r1.len() > 0),
            HarvestAsset::GasUnits => assert(r2.len() > 0),
            HarvestAsset::DarkMatter => assert(r3.len() > 0),
            HarvestAsset::ExoticMatter => assert(r4.len() > 0),
            HarvestAsset::WormholeCore => assert(r5.len() > 0),
        }
    }
    assert(r0.len() <= 1 && r1.len() <= 2 && r2.len() <= 3 && r3.len() <= 4 && r4.len() <= 5 && r5.len() <= 6);
    assert forall|i: int| 0 <= i < r5.len() implies (#[trigger] r5[i]).quantity > 0 by {
        assert(forall|j: int| 0 <= j < r0.len() ==> (#[trigger] r0[j]).quantity > 0);
        assert(forall|j: int| 0 <= j < r1.len() ==> (#[trigger] r1[j]).quantity > 0);
        assert(forall|j: int| 0 <= j < r2.len() ==> (#[trigger] r2[j]).quantity > 0);
        assert(forall|j: int| 0 <= j < r3.len() ==> (#[trigger] r3[j]).quantity > 0);
        assert(forall|j: int| 0 <= j < r4.len() ==> (#[trigger] r4[j]).quantity > 0);
    }
}

proof fn lemma_credit_harvest_balance(s: MinterState, owner: Address, cells: Seq<NebulaCell>, a: HarvestAsset)
    requires
        forall|b: HarvestAsset| 0 <= #[trigger] layout_yield(cells, b) <= i128::MAX,
        forall|b: HarvestAsset| #[trigger] layout_yield(cells, b) > 0
            ==> balance_of(s, owner, asset_symbol(b)) + layout_yield(cells, b) <= i128::MAX,
    ensures
        balance_of(credit_harvest(s, owner, cells), owner, asset_symbol(a)) == balance_of(s, owner, asset_symbol(a))
            + layout_yield(cells, a),
{
    let c0 = credit_yield(s, owner, cells, HarvestAsset::StellarDust);
    let c1 = credit_yield(c0, owner, cells, HarvestAsset::AsteroidOre);
    let c2 = credit_yield(c1, owner, cells, HarvestAsset::GasUnits);
    let c3 = credit_yield(c2, owner, cells, HarvestAsset::DarkMatter);
    let c4 = credit_yield(c3, owner, cells, HarvestAsset::ExoticMatter);
    lemma_credit_keeps_others(s, owner, cells, HarvestAsset::StellarDust);
    lemma_credit_keeps_others(c0, owner, cells, HarvestAsset::AsteroidOre);
    lemma_credit_keeps_others(c1, owner, cells, HarvestAsset::GasUnits);
    lemma_credit_keeps_others(c2, owner, cells, HarvestAsset::DarkMatter);
    lemma_credit_keeps_others(c3, owner, cells, HarvestAsset::ExoticMatter);
    lemma_credit_keeps_others(c4, owner, cells, HarvestAsset::WormholeCore);
    lemma_credit_yield_self(s, owner, cells, HarvestAsset::StellarDust);
    lemma_credit_yield_self(c0, owner, cells, HarvestAsset::AsteroidOre);
    lemma_credit_yield_self(c1, owner, cells, HarvestAsset::GasUnits);
    lemma_credit_yield_self(c2, owner, cells, HarvestAsset::DarkMatter);
    lemma_credit_yield_self(c3, owner, cells, HarvestAsset::ExoticMatter);
    lemma_credit_yield_self(c4, owner, cells, HarvestAsset::WormholeCore);
}

proof fn lemma_harvested_entries(cells: Seq<NebulaCell>)
    requires
        forall|b: HarvestAsset| 0 <= #[trigger] layout_yield(cells, b) <= i128::MAX,
    ensures
        forall|i: int| 0 <= i < harvested(cells).len() ==> exists|b: HarvestAsset|
            #[trigger] harvested(cells)[i] == (HarvestedResource {
                asset: asset_symbol(b),
                quantity: layout_yield(cells, b) as i128,
            }) && layout_yield(cells, b) > 0,
{
    let y0: int = layout_yield(cells, HarvestAsset::StellarDust);
    let y1: int = layout_yield(cells, HarvestAsset::AsteroidOre);
    let y2: int = layout_yield(cells, HarvestAsset::GasUnits);
    let y3: int = layout_yield(cells, HarvestAsset::DarkMatter);
    let y4: int = layout_yield(cells, HarvestAsset::ExoticMatter);
    let y5: int = layout_yield(cells, HarvestAsset::WormholeCore);
    let r0 = stage(Seq::empty(), HarvestAsset::StellarDust, y0);
    let r1 = stage(r0, HarvestAsset::AsteroidOre, y1);
    let r2 = stage(r1, HarvestAsset::GasUnits, y2);
    let r3 = stage(r2, HarvestAsset::DarkMatter, y3);
    let r4 = stage(r3, HarvestAsset::ExoticMatter, y4);
    let r5 = stage(r4, HarvestAsset::WormholeCore, y5);
    let good = |r: HarvestedResource| exists|b: HarvestAsset|
        r == (HarvestedResource { asset: asset_symbol(b), quantity: layout_yield(cells, b) as i128 })
            && layout_yield(cells, b) > 0;
    assert forall|i: int| 0 <= i < r5.len() implies good(#[trigger] r5[i]) by {
        assert(forall|j: int| 0 <= j < r0.len() ==> good(#[trigger] r0[j]));
        assert(forall|j: int| 0 <= j < r1.len() ==> good(#[trigger] r1[j])) by {
            assert forall|j: int| 0 <= j < r1.len() implies good(#[trigger] r1[j]) by {
                if j == r0.len() {
                    assert(r1[j].asset == asset_symbol(HarvestAsset::AsteroidOre));
                } else {
                    assert(r1[j] == r0[j]);
                }
            }
        }
        assert(forall|j: int| 0 <= j < r2.len() ==> good(#[trigger] r2[j])) by {
            assert forall|j: int| 0 <= j < r2.len() implies good(#[trigger] r2[j]) by {
                if j == r1.len() {
                    assert(r2[j].asset == asset_symbol(HarvestAsset::GasUnits));
                } else {
                    assert(r2[j] == r1[j]);
                }
            }
        }
        assert(forall|j: int| 0 <= j < r3.len() ==> good(#[trigger] r3[j])) by {
            assert forall|j: int| 0 <= j < r3.len() implies good(#[trigger] r3[j]) by {
                if j == r2.len() {
                    assert(r3[j].asset == asset_symbol(HarvestAsset::DarkMatter));
                } else {
                    assert(r3[j] == r2[j]);
                }
            }
        }
        assert(forall|j: int| 0 <= j < r4.len() ==> good(#[trigger] r4[j])) by {
            assert forall|j: int| 0 <= j < r4.len() implies good(#[trigger] r4[j]) by {
                if j == r3.len() {
                    assert(r4[j].asset == asset_symbol(HarvestAsset::ExoticMatter));
                } else {
                    assert(r4[j] == r3[j]);
                }
            }
        }
        if i == r4.len() {
            assert(r5[i].asset == asset_symbol(HarvestAsset::WormholeCore));
        } else {
            assert(r5[i] == r4[i]);
        }
    }
}

fn harvested_list(y: &LayoutYields) -> (v: Vec<HarvestedResource>)
    requires
        y.dust >= 0 && y.ore >= 0 && y.gas >= 0 && y.dark >= 0 && y.exotic >= 0 && y.worm >= 0,
    ensures
        v@ == stage(
            stage(
                stage(
                    stage(stage(stage(Seq::empty(), HarvestAsset::StellarDust, y.dust as int), HarvestAsset::AsteroidOre, y.ore as int), HarvestAsset::GasUnits, y.gas as int),
                    HarvestAsset::DarkMatter,
                    y.dark as int,
                ),
                HarvestAsset::ExoticMatter,
                y.exotic as int,
            ),
            HarvestAsset::WormholeCore,
            y.worm as int,
        ),
{
    let mut v: Vec<HarvestedResource> = Vec::new();
    if y.dust > 0 {
        v.push(HarvestedResource { asset: HarvestAsset::StellarDust.symbol(), quantity: y.dust });
    }
    if y.ore > 0 {
        v.push(HarvestedResource { asset: HarvestAsset::AsteroidOre.symbol(), quantity: y.ore });
    }
    if y.gas > 0 {
        v.push(HarvestedResource { asset: HarvestAsset::GasUnits.symbol(), quantity: y.gas });
    }
    if y.dark > 0 {
        v.push(HarvestedResource { asset: HarvestAsset::DarkMatter.symbol(), quantity: y.dark });
    }
    if y.exotic > 0 {
        v.push(HarvestedResource { asset: HarvestAsset::ExoticMatter.symbol(), quantity: y.exotic });
    }
    if y.worm > 0 {
        v.push(HarvestedResource { asset: HarvestAsset::WormholeCore.symbol(), quantity: y.worm });
    }
    v
}

fn yield_fits(env: &MinterEnv, owner: &Address, asset: HarvestAsset, quantity: i128) -> (ok: bool)
    requires
        quantity >= 0,
    ensures
        ok == (quantity > 0 ==> balance_of(env@, *owner, asset_symbol(asset)) + quantity <= i128::MAX),
{
    if quantity <= 0 {
        return true;
    }
    let current = get_balance(env, owner, &asset.symbol());
    current <= i128::MAX - quantity
}

/// Whether harvesting over `layout` for a ship recorded with `ship_owner` can
/// run on `env` without overflowing a counter or a balance, which
/// [`harvest_resources`] requires.
pub fn harvest_fits_check(env: &MinterEnv, ship_owner: Option<Address>, layout: &NebulaLayout) -> (ok: bool)
    ensures
        ok == harvest_fits(env@, ship_owner, layout.cells@),
{
    let owner = match ship_owner {
        None => return true,
        Some(o) => o,
    };
    let ghost cells = layout.cells@;
    let ghost s = env@;
    let y = tally_layout(&layout.cells);
    proof {
        lemma_layout_yield_bounds(cells, HarvestAsset::StellarDust);
        lemma_layout_yield_bounds(cells, HarvestAsset::AsteroidOre);
        lemma_layout_yield_bounds(cells, HarvestAsset::GasUnits);
        lemma_layout_yield_bounds(cells, HarvestAsset::DarkMatter);
        lemma_layout_yield_bounds(cells, HarvestAsset::ExoticMatter);
        lemma_layout_yield_bounds(cells, HarvestAsset::WormholeCore);
        assert(layout.cells.len() <= usize::MAX);
        assert forall|b: HarvestAsset| 0 <= #[trigger] layout_yield(cells, b) <= i128::MAX by {
            lemma_layout_yield_bounds(cells, b);
        }
        lemma_harvested_nonempty(cells);
    }
    let resources = harvested_list(&y);
    assert(resources@ == harvested(cells));
    if resources.len() == 0 {
        return true;
    }
    let harvest_count: u64 = match env.harvest_counter {
        Some(c) => c,
        None => 0,
    };
    if harvest_count == u64::MAX {
        return false;
    }
    let fits = yield_fits(env, &owner, HarvestAsset::StellarDust, y.dust)
        && yield_fits(env, &owner, HarvestAsset::AsteroidOre, y.ore)
        && yield_fits(env, &owner, HarvestAsset::GasUnits, y.gas)
        && yield_fits(env, &owner, HarvestAsset::DarkMatter, y.dark)
        && yield_fits(env, &owner, HarvestAsset::ExoticMatter, y.exotic)
        && yield_fits(env, &owner, HarvestAsset::WormholeCore, y.worm);
    if !fits {
        proof {
            assert(!(forall|a: HarvestAsset| #[trigger] layout_yield(cells, a) > 0
                ==> balance_of(s, owner, asset_symbol(a)) + layout_yield(cells, a) <= i128::MAX));
        }
        return false;
    }
    assert forall|a: HarvestAsset| #[trigger] layout_yield(cells, a) > 0
        implies balance_of(s, owner, asset_symbol(a)) + layout_yield(cells, a) <= i128::MAX by {
        match a {
            HarvestAsset::StellarDust => {},
            HarvestAsset::AsteroidOre => {},
            HarvestAsset::GasUnits => {},
            HarvestAsset::DarkMatter => {},
            HarvestAsset::ExoticMatter => {},
            HarvestAsset::WormholeCore => {},
        }
    }
    let chosen = match choose_listing_asset(&resources) {
        Some(c) => c,
        None => {
            proof {
                assert(harvested(cells)[0].quantity > 0);
            }
            return true;
        },
    };
    proof {
        let k = choose|k: int| is_listing_choice(resources@, k) && resources@[k] == chosen;
        assert(is_listing_choice(harvested(cells), k));
        lemma_listing_choice_unique(harvested(cells), k, listing_index(harvested(cells)));
        assert(chosen == listed_resource(cells));
        lemma_harvested_entries(cells);
        let b = choose|b: HarvestAsset| #[trigger] harvested(cells)[k] == (HarvestedResource {
            asset: asset_symbol(b),
            quantity: layout_yield(cells, b) as i128,
        }) && layout_yield(cells, b) > 0;
        lemma_credit_harvest_balance(demand_auth(s, owner), owner, cells, b);
        assert(chosen.asset == asset_symbol(b));
    }
    let after_credit: i128 = get_balance(env, &owner, &chosen.asset) + chosen.quantity;
    let offer_count: u64 = match env.dex_offer_counter {
        Some(c) => c,
        None => 0,
    };
    !(after_credit > 0 && offer_count == u64::MAX)
}

/// Harvest ship `ship_id` over `layout`, where `ship_owner` is the owner the
/// ship registry records for the ship (`None` when it has none): credits the
/// owner's balances, counts and announces the harvest, and lists the first
/// of the largest harvested resources on the DEX offer hook.
pub fn harvest_resources(
    env: &mut MinterEnv,
    ship_id: u64,
    ship_owner: Option<Address>,
    layout: &NebulaLayout,
) -> (r: Result<HarvestResult, HarvestError>)
    requires
        harvest_fits(old(env)@, ship_owner, layout.cells@),
    ensures
        final(env)@ == harvest_step(old(env)@, ship_id, ship_owner, layout.cells@, layout.total_energy).0,
        report_of(r) == harvest_step(old(env)@, ship_id, ship_owner, layout.cells@, layout.total_energy).1,
{
    let ghost s0 = env@;
    let ghost cells = layout.cells@;
    let owner = get_ship_owner(env, ship_owner)?;
    let ghost s1 = env@;
    let y = tally_layout(&layout.cells);
    proof {
        lemma_layout_yield_bounds(cells, HarvestAsset::StellarDust);
        lemma_layout_yield_bounds(cells, HarvestAsset::AsteroidOre);
        lemma_layout_yield_bounds(cells, HarvestAsset::GasUnits);
        lemma_layout_yield_bounds(cells, HarvestAsset::DarkMatter);
        lemma_layout_yield_bounds(cells, HarvestAsset::ExoticMatter);
        lemma_layout_yield_bounds(cells, HarvestAsset::WormholeCore);
    }

    let mut staged = staged_new();
    proof {
        lemma_credit_keeps_others(s1, owner, cells, HarvestAsset::StellarDust);
        lemma_harvested_nonempty(cells);
    }
    credit_and_stage(env, &owner, &mut staged, HarvestAsset::StellarDust, y.dust);
    proof {
        lemma_credit_keeps_others(env@, owner, cells, HarvestAsset::AsteroidOre);
    }
    credit_and_stage(env, &owner, &mut staged, HarvestAsset::AsteroidOre, y.ore);
    proof {
        lemma_credit_keeps_others(env@, owner, cells, HarvestAsset::GasUnits);
    }
    credit_and_stage(env, &owner, &mut staged, HarvestAsset::GasUnits, y.gas);
    proof {
        lemma_credit_keeps_others(env@, owner, cells, HarvestAsset::DarkMatter);
    }
    credit_and_stage(env, &owner, &mut staged, HarvestAsset::DarkMatter, y.dark);
    proof {
        lemma_credit_keeps_others(env@, owner, cells, HarvestAsset::ExoticMatter);
    }
    credit_and_stage(env, &owner, &mut staged, HarvestAsset::ExoticMatter, y.exotic);
    credit_and_stage(env, &owner, &mut staged, HarvestAsset::WormholeCore, y.worm);
    assert(env@ == credit_harvest(s1, owner, cells));
    assert(staged_items(staged) == harvested(cells));

    let mut resources: Vec<HarvestedResource> = Vec::new();
    while staged_len(&staged) > 0
        invariant
            resources@ + staged_items(staged) == harvested(cells),
        decreases staged_items(staged).len(),
    {
        let item = staged_remove(&mut staged, 0);
        resources.push(item);
    }
    if resources.len() == 0 {
        return Err(HarvestError::EmptyHarvest);
    }

    let ghost s2 = env@;
    let _harvest_id: u64 = next_counter(&mut env.harvest_counter);
    assert(layout.cells.len() <= usize::MAX);
    let total_units: i128 = y.dust + y.ore + y.gas + y.dark + y.exotic + y.worm;
    let event_resources = copy_resources(&resources);
    let ghost events_before = env.events@;
    let event = MinterEvent::Harvested {
        ship_id,
        owner,
        resources: event_resources,
        total_units,
        total_energy: layout.total_energy,
    };
    let ghost event_view = event@;
    env.events.push(event);
    proof {
        assert(event_views(env.events@) =~= event_views(events_before).push(event_view));
        assert(env@ == (MinterState {
            harvest_counter: Some((counter_value(s0.harvest_counter) + 1) as u64),
            events: s2.events.push(
                MinterEventView::Harvested {
                    ship_id,
                    owner,
                    resources: harvested(cells),
                    total_units: total_yield(cells) as i128,
                    total_energy: layout.total_energy,
                },
            ),
            ..s2
        }));
    }

    let auto_asset = match choose_listing_asset(&resources) {
        Some(a) => a,
        None => {
            proof {
                assert(harvested(cells)[0].quantity > 0);
            }
            return Err(HarvestError::EmptyHarvest);
        },
    };
    proof {
        let k = choose|k: int| is_listing_choice(resources@, k) && resources@[k] == auto_asset;
        assert(is_listing_choice(harvested(cells), k));
        lemma_listing_choice_unique(harvested(cells), k, listing_index(harvested(cells)));
        assert(auto_asset == listed_resource(cells));
    }
    let auto_offer = auto_list_on_dex_for_owner(env, &owner, &auto_asset.asset, listing_price_for(&auto_asset.asset))?;

    Ok(HarvestResult {
        ship_id,
        owner,
        resources,
        total_units,
        auto_offer,
        harvested_at: env.ledger_timestamp,
    })
}

// ─── Laws ───────────────────────────────────────────────────────────────────

/// Sum of the quantities of `s`.
pub open spec fn sum_quantities(s: Seq<HarvestedResource>) -> int
    decreases s.len(),
{
    if s.len() == 0 {
        0
    } else {
        sum_quantities(s.drop_last()) + s.last().quantity
    }
}

/// Whether every yield over `cells` fits in an `i128`, as it does for every
/// layout held in memory (see [`lemma_memory_layouts_fit`]).
pub open spec fn yields_fit(cells: Seq<NebulaCell>) -> bool {
    forall|a: HarvestAsset| #[trigger] layout_yield(cells, a) <= i128::MAX / 8
}

/// The yields of a layout whose cells fit in memory fit in an `i128`.
pub proof fn lemma_memory_layouts_fit(cells: Seq<NebulaCell>)
    requires
        cells.len() <= usize::MAX,
    ensures
        yields_fit(cells),
{
    assert forall|a: HarvestAsset| #[trigger] layout_yield(cells, a) <= i128::MAX / 8 by {
        lemma_layout_yield_bounds(cells, a);
    }
}

/// A listing moves between 1 and 100 units (all of a smaller balance) of the
/// seller's positive balance into a fresh offer numbered one past the offer
/// counter, quoted in `xlm` at the asked price; the seller's balance goes
/// down by exactly the listed quantity and no other balance changes.
pub proof fn lemma_listing_moves_units(s: MinterState, owner: Address, resource: Symbol, min_price: i128, o: Address, x: Symbol)
    requires
        listing_fits(s, owner, resource, min_price),
        listing_step(s, owner, resource, min_price).1 is Ok,
    ensures
        ({
            let (t, r) = listing_step(s, owner, resource, min_price);
            let offer = r->Ok_0;
            let before: i128 = balance_of(s, owner, resource);
            &&& before > 0 && min_price > 0
            &&& offer.quantity == if before > 100 { 100 } else { before }
            &&& 0 < offer.quantity <= 100
            &&& balance_of(t, owner, resource) == before - offer.quantity
            &&& balance_of(t, owner, resource) >= 0
            &&& !(o == owner && x == resource) ==> balance_of(t, o, x) == balance_of(s, o, x)
            &&& offer.offer_id == counter_value(s.dex_offer_counter) + 1
            &&& t.dex_offer_counter == Some(offer.offer_id)
            &&& t.dex_offers == s.dex_offers.push(offer)
            &&& offer.seller == owner && offer.resource == resource && offer.min_price == min_price
            &&& offer.quote_asset == quote_asset()
            &&& t.events == s.events.push(MinterEventView::Listed(offer))
        }),
{
    let before: i128 = balance_of(s, owner, resource);
    let q: i128 = if before > 100 { 100 } else { before };
    lemma_balance_after_set(s, owner, resource, (before - q) as i128, owner, resource);
    lemma_balance_after_set(s, owner, resource, (before - q) as i128, o, x);
}

/// A refused listing changes nothing: a price that is not positive is
/// refused with `InvalidPrice`, a balance that is not positive with
/// `AssetNotHarvested`.
pub proof fn lemma_listing_refusals(s: MinterState, owner: Address, resource: Symbol, min_price: i128)
    ensures
        min_price <= 0 ==> listing_step(s, owner, resource, min_price) == (s, Err::<DexOffer, HarvestError>(HarvestError::InvalidPrice)),
        min_price > 0 && balance_of(s, owner, resource) <= 0 ==> listing_step(s, owner, resource, min_price) == (
            s,
            Err::<DexOffer, HarvestError>(HarvestError::AssetNotHarvested),
        ),
{
}

/// Offer numbers increase one by one: a listing made after another gets the
/// next number.
pub proof fn lemma_offer_ids_increase(
    s: MinterState,
    owner1: Address,
    resource1: Symbol,
    price1: i128,
    owner2: Address,
    resource2: Symbol,
    price2: i128,
)
    requires
        counter_value(s.dex_offer_counter) + 2 <= u64::MAX,
        listing_step(s, owner1, resource1, price1).1 is Ok,
        listing_step(listing_step(s, owner1, resource1, price1).0, owner2, resource2, price2).1 is Ok,
    ensures
        listing_step(listing_step(s, owner1, resource1, price1).0, owner2, resource2, price2).1->Ok_0.offer_id
            == listing_step(s, owner1, resource1, price1).1->Ok_0.offer_id + 1,
{
}

proof fn lemma_sum_stage(items: Seq<HarvestedResource>, a: HarvestAsset, q: int)
    requires
        0 <= q <= i128::MAX,
    ensures
        sum_quantities(stage(items, a, q)) == sum_quantities(items) + q,
{
    if q > 0 {
        let e = HarvestedResource { asset: asset_symbol(a), quantity: q as i128 };
        assert(items.push(e).drop_last() =~= items);
    }
}

proof fn lemma_credit_yield_self(s: MinterState, owner: Address, cells: Seq<NebulaCell>, a: HarvestAsset)
    requires
        0 <= layout_yield(cells, a) <= i128::MAX,
        balance_of(s, owner, asset_symbol(a)) + layout_yield(cells, a) <= i128::MAX,
        balance_of(s, owner, asset_symbol(a)) + layout_yield(cells, a) >= i128::MIN,
    ensures
        balance_of(credit_yield(s, owner, cells, a), owner, asset_symbol(a)) == balance_of(s, owner, asset_symbol(a))
            + layout_yield(cells, a),
{
    let q: i128 = layout_yield(cells, a) as i128;
    if q > 0 {
        lemma_balance_after_set(s, owner, asset_symbol(a), (balance_of(s, owner, asset_symbol(a)) + q) as i128, owner, asset_symbol(a));
    }
}

/// What a successful harvest reports and leaves behind: its resources are
/// the positive yields in harvest order and add up to the reported total;
/// the listed resource is the first of the largest of them; each of the
/// owner's six balances went up by its yield, minus the listed quantity for
/// the listed resource.
pub proof fn lemma_harvest_accounts(
    s: MinterState,
    ship_id: u64,
    owner: Address,
    cells: Seq<NebulaCell>,
    total_energy: u32,
    a: HarvestAsset,
)
    requires
        yields_fit(cells),
        harvest_fits(s, Some(owner), cells),
        harvest_step(s, ship_id, Some(owner), cells, total_energy).1 is Ok,
    ensures
        ({
            let (t, r) = harvest_step(s, ship_id, Some(owner), cells, total_energy);
            let report = r->Ok_0;
            let listed = report.auto_offer;
            &&& report.resources == harvested(cells)
            &&& report.resources.len() > 0
            &&& forall|i: int| 0 <= i < report.resources.len() ==> (#[trigger] report.resources[i]).quantity > 0
            &&& report.total_units == sum_quantities(report.resources)
            &&& listed.resource == listed_resource(cells).asset
            &&& forall|i: int| 0 <= i < report.resources.len() ==> (#[trigger] report.resources[i]).quantity
                <= listed_resource(cells).quantity
            &&& balance_of(t, owner, asset_symbol(a)) == balance_of(s, owner, asset_symbol(a)) + layout_yield(cells, a)
                - (if listed.resource == asset_symbol(a) { listed.quantity as int } else { 0 })
            &&& t.harvest_counter == Some((counter_value(s.harvest_counter) + 1) as u64)
        }),
{
    assert forall|b: HarvestAsset| #[trigger] layout_yield(cells, b) <= i128::MAX by {}
    lemma_harvested_nonempty(cells);
    assert forall|b: HarvestAsset| 0 <= #[trigger] layout_yield(cells, b) by {
        lemma_layout_yield_bounds(cells, b);
    }
    let res = harvested(cells);
    // The total.
    let y0: int = layout_yield(cells, HarvestAsset::StellarDust);
    let y1: int = layout_yield(cells, HarvestAsset::AsteroidOre);
    let y2: int = layout_yield(cells, HarvestAsset::GasUnits);
    let y3: int = layout_yield(cells, HarvestAsset::DarkMatter);
    let y4: int = layout_yield(cells, HarvestAsset::ExoticMatter);
    let y5: int = layout_yield(cells, HarvestAsset::WormholeCore);
    let r0 = stage(Seq::empty(), HarvestAsset::StellarDust, y0);
    let r1 = stage(r0, HarvestAsset::AsteroidOre, y1);
    let r2 = stage(r1, HarvestAsset::GasUnits, y2);
    let r3 = stage(r2, HarvestAsset::DarkMatter, y3);
    let r4 = stage(r3, HarvestAsset::ExoticMatter, y4);
    lemma_sum_stage(Seq::empty(), HarvestAsset::StellarDust, y0);
    lemma_sum_stage(r0, HarvestAsset::AsteroidOre, y1);
    lemma_sum_stage(r1, HarvestAsset::GasUnits, y2);
    lemma_sum_stage(r2, HarvestAsset::DarkMatter, y3);
    lemma_sum_stage(r3, HarvestAsset::ExoticMatter, y4);
    lemma_sum_stage(r4, HarvestAsset::WormholeCore, y5);
    // The listed resource.
    assert(res[0].quantity > 0);
    assert(exists|j: int| is_listing_choice(res, j)) by {
        // the first of the largest positive quantities exists
        lemma_first_largest_exists(res);
    }
    // The balances.
    let s1 = demand_auth(s, owner);
    lemma_credit_harvest_balance(s1, owner, cells, a);
    let c5 = credit_harvest(s1, owner, cells);
    let chosen = listed_resource(cells);
    let s3 = MinterState {
        harvest_counter: Some((counter_value(s.harvest_counter) + 1) as u64),
        events: c5.events.push(
            MinterEventView::Harvested {
                ship_id,
                owner,
                resources: res,
                total_units: total_yield(cells) as i128,
                total_energy,
            },
        ),
        ..c5
    };
    let before: i128 = balance_of(s3, owner, chosen.asset);
    let q: i128 = if before > 100 { 100 } else { before };
    lemma_balance_after_set(s3, owner, chosen.asset, (before - q) as i128, owner, asset_symbol(a));
}

proof fn lemma_first_largest_exists(s: Seq<HarvestedResource>)
    requires
        s.len() > 0,
        s[0].quantity > 0,
    ensures
        exists|k: int| is_listing_choice(s, k),
    decreases s.len(),
{
    if s.len() == 1 {
        assert(is_listing_choice(s, 0));
    } else {
        let rest = s.drop_last();
        lemma_first_largest_exists(rest);
        let k = choose|k: int| is_listing_choice(rest, k);
        assert forall|j: int| 0 <= j < rest.len() implies s[j] == #[trigger] rest[j] by {}
        let n: int = s.len() - 1;
        if s.last().quantity > rest[k].quantity {
            assert forall|j: int| 0 <= j < n && s[j].quantity > 0 implies s[j].quantity < s[n].quantity by {
                assert(s[j] == rest[j]);
                if j < k {
                    assert(rest[j].quantity < rest[k].quantity);
                } else if j > k {
                    assert(rest[j].quantity <= rest[k].quantity);
                }
            }
            assert(is_listing_choice(s, n));
        } else {
            assert forall|j: int| 0 <= j < k && s[j].quantity > 0 implies s[j].quantity < s[k].quantity by {
                assert(s[j] == rest[j]);
            }
            assert forall|j: int| k < j < s.len() && s[j].quantity > 0 implies s[j].quantity <= s[k].quantity by {
                if j < n {
                    assert(s[j] == rest[j]);
                }
            }
            assert(is_listing_choice(s, k));
        }
    }
}

/// A harvest of a ship without a recorded owner changes nothing; one whose
/// layout yields nothing only demands the owner's authorization and is
/// refused with `EmptyHarvest`.
pub proof fn lemma_harvest_refusals(s: MinterState, ship_id: u64, ship_owner: Option<Address>, cells: Seq<NebulaCell>, total_energy: u32)
    requires
        yields_fit(cells),
    ensures
        ship_owner is None ==> harvest_step(s, ship_id, ship_owner, cells, total_energy) == (
            s,
            Err::<HarvestReport, HarvestError>(HarvestError::ShipNotFound),
        ),
        ship_owner is Some && (forall|a: HarvestAsset| #[trigger] layout_yield(cells, a) == 0)
            ==> harvest_step(s, ship_id, ship_owner, cells, total_energy) == (
            demand_auth(s, ship_owner->0),
            Err::<HarvestReport, HarvestError>(HarvestError::EmptyHarvest),
        ),
{
    if ship_owner is Some {
        if forall|a: HarvestAsset| #[trigger] layout_yield(cells, a) == 0 {
            assert(layout_yield(cells, HarvestAsset::StellarDust) == 0);
            assert(layout_yield(cells, HarvestAsset::AsteroidOre) == 0);
            assert(layout_yield(cells, HarvestAsset::GasUnits) == 0);
            assert(layout_yield(cells, HarvestAsset::DarkMatter) == 0);
            assert(layout_yield(cells, HarvestAsset::ExoticMatter) == 0);
            assert(layout_yield(cells, HarvestAsset::WormholeCore) == 0);
            assert(harvested(cells).len() == 0);
        }
    }
}

proof fn lemma_one_cell(c: NebulaCell, a: HarvestAsset)
    ensures
        layout_yield(seq![c], a) == cell_yield(c, a),
{
    let one = seq![c];
    assert(one.drop_last() =~= Seq::<NebulaCell>::empty());
    assert(layout_yield(one.drop_last(), a) == 0);
    assert(one.last() == c);
}

/// A layout's yield of each resource is additive over its cells: a layout
/// with one more cell yields what it yielded before plus what that cell
/// yields on its own.
pub proof fn lemma_yield_additive(cells: Seq<NebulaCell>, c: NebulaCell, a: HarvestAsset)
    ensures
        layout_yield(cells.push(c), a) == layout_yield(cells, a) + layout_yield(seq![c], a),
{
    assert(cells.push(c).drop_last() =~= cells);
    lemma_one_cell(c, a);
}

/// The yield of two layouts laid end to end is the sum of their yields.
pub proof fn lemma_yield_concat(x: Seq<NebulaCell>, y: Seq<NebulaCell>, a: HarvestAsset)
    ensures
        layout_yield(x + y, a) == layout_yield(x, a) + layout_yield(y, a),
    decreases y.len(),
{
    if y.len() == 0 {
        assert(x + y =~= x);
    } else {
        lemma_yield_concat(x, y.drop_last(), a);
        assert((x + y).drop_last() =~= x + y.drop_last());
        assert((x + y).last() == y.last());
    }
}

/// What a single cell yields: a star 2 + energy/20 dust, an asteroid
/// 3 + energy/15 ore, a gas cloud 2 + energy/16 gas, dark matter
/// 1 + energy/25 dark, exotic matter 1 + energy/30 exotic, a wormhole one
/// worm, stellar dust 1 + energy/18 dust, and nothing of any other resource;
/// an empty cell yields nothing.
pub proof fn lemma_single_cell_yield(c: NebulaCell, a: HarvestAsset)
    ensures
        c.cell_type == CellType::Star && a == HarvestAsset::StellarDust ==> layout_yield(seq![c], a) == 2 + c.energy / 20,
        c.cell_type == CellType::Asteroid && a == HarvestAsset::AsteroidOre ==> layout_yield(seq![c], a) == 3 + c.energy / 15,
        c.cell_type == CellType::GasCloud && a == HarvestAsset::GasUnits ==> layout_yield(seq![c], a) == 2 + c.energy / 16,
        c.cell_type == CellType::DarkMatter && a == HarvestAsset::DarkMatter ==> layout_yield(seq![c], a) == 1 + c.energy / 25,
        c.cell_type == CellType::ExoticMatter && a == HarvestAsset::ExoticMatter ==> layout_yield(seq![c], a) == 1 + c.energy
            / 30,
        c.cell_type == CellType::Wormhole && a == HarvestAsset::WormholeCore ==> layout_yield(seq![c], a) == 1,
        c.cell_type == CellType::StellarDust && a == HarvestAsset::StellarDust ==> layout_yield(seq![c], a) == 1 + c.energy
            / 18,
        !(c.cell_type == CellType::Star && a == HarvestAsset::StellarDust)
            && !(c.cell_type == CellType::Asteroid && a == HarvestAsset::AsteroidOre)
            && !(c.cell_type == CellType::GasCloud && a == HarvestAsset::GasUnits)
            && !(c.cell_type == CellType::DarkMatter && a == HarvestAsset::DarkMatter)
            && !(c.cell_type == CellType::ExoticMatter && a == HarvestAsset::ExoticMatter)
            && !(c.cell_type == CellType::Wormhole && a == HarvestAsset::WormholeCore)
            && !(c.cell_type == CellType::StellarDust && a == HarvestAsset::StellarDust) ==> layout_yield(seq![c], a) == 0,
{
    lemma_one_cell(c, a);
}

/// A listing succeeds whenever the asked price is positive and the seller
/// holds a positive balance, however high the price: the offer is numbered
/// one past the offer counter, is made by the seller for the resource at
/// the asked price in `xlm`, and holds the seller's whole balance, at most
/// 100 units.
pub proof fn lemma_listing_succeeds(s: MinterState, owner: Address, resource: Symbol, min_price: i128)
    requires
        min_price > 0,
        balance_of(s, owner, resource) > 0,
    ensures
        listing_step(s, owner, resource, min_price).1 == Ok::<DexOffer, HarvestError>(
            DexOffer {
                offer_id: (counter_value(s.dex_offer_counter) + 1) as u64,
                seller: owner,
                resource,
                quantity: if balance_of(s, owner, resource) > 100 { 100 } else { balance_of(s, owner, resource) },
                min_price,
                quote_asset: quote_asset(),
                timestamp: s.ledger_timestamp,
            },
        ),
{
}

/// A harvest by the ship's recorded owner over a layout that yields some
/// resource succeeds, provided the owner owes nothing of any resource (no
/// negative balance): every listing price is positive, and the listed
/// resource was just credited.
pub proof fn lemma_harvest_succeeds(
    s: MinterState,
    ship_id: u64,
    owner: Address,
    cells: Seq<NebulaCell>,
    total_energy: u32,
    a: HarvestAsset,
)
    requires
        yields_fit(cells),
        harvest_fits(s, Some(owner), cells),
        layout_yield(cells, a) > 0,
        forall|b: HarvestAsset| #[trigger] balance_of(s, owner, asset_symbol(b)) >= 0,
    ensures
        harvest_step(s, ship_id, Some(owner), cells, total_energy).1 is Ok,
{
    assert forall|b: HarvestAsset| 0 <= #[trigger] layout_yield(cells, b) <= i128::MAX by {
        lemma_layout_yield_bounds(cells, b);
    }
    lemma_harvested_nonempty(cells);
    lemma_harvested_entries(cells);
    let res = harvested(cells);
    assert(res.len() > 0);
    assert(res[0].quantity > 0);
    lemma_first_largest_exists(res);
    let k = listing_index(res);
    assert(is_listing_choice(res, k));
    let chosen = res[k];
    let b = choose|b: HarvestAsset|
        res[k] == (HarvestedResource { asset: asset_symbol(b), quantity: layout_yield(cells, b) as i128 })
            && layout_yield(cells, b) > 0;
    let s1 = demand_auth(s, owner);
    assert(balance_of(s1, owner, asset_symbol(b)) == balance_of(s, owner, asset_symbol(b)));
    lemma_credit_harvest_balance(s1, owner, cells, b);
    let c5 = credit_harvest(s1, owner, cells);
    let s3 = MinterState {
        harvest_counter: Some((counter_value(s.harvest_counter) + 1) as u64),
        events: c5.events.push(
            MinterEventView::Harvested {
                ship_id,
                owner,
                resources: res,
                total_units: total_yield(cells) as i128,
                total_energy,
            },
        ),
        ..c5
    };
    assert(balance_of(s3, owner, chosen.asset) > 0);
    assert(listing_price(chosen.asset) > 0);
    lemma_listing_succeeds(s3, owner, chosen.asset, listing_price(chosen.asset));
}

} // verus!
