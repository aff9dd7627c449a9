use nebula_nomad::resource_minter::{
    auto_list_on_dex, choose_listing_asset, harvest_fits_check, harvest_resources, listing_price_for, BalanceEntry, CellType,
    DexOffer, HarvestAsset, HarvestError, HarvestedResource, MinterEnv, MinterEvent, NebulaCell, NebulaLayout,
};
use nebula_nomad::values::{Address, Symbol};

fn addr(tag: u8) -> Address {
    let mut strkey = [b'D'; 56];
    strkey[0] = b'G';
    strkey[55] = tag;
    Address { strkey }
}

fn contract() -> Address {
    let mut strkey = [b'E'; 56];
    strkey[0] = b'C';
    Address { strkey }
}

fn sym(text: &str) -> Symbol {
    let mut chars = [0u8; 32];
    chars[..text.len()].copy_from_slice(text.as_bytes());
    Symbol { chars }
}

fn fresh_env() -> MinterEnv {
    MinterEnv {
        resource_counter: None,
        harvest_counter: None,
        dex_offer_counter: None,
        balances: Vec::new(),
        dex_offers: Vec::new(),
        ledger_timestamp: 1_700_000_000,
        contract_address: contract(),
        events: Vec::new(),
        auths: Vec::new(),
    }
}

fn balance(env: &MinterEnv, owner: Address, asset: Symbol) -> i128 {
    env.balances
        .iter()
        .rev()
        .find(|e| e.owner == owner && e.asset == asset)
        .map(|e| e.amount)
        .unwrap_or(0)
}

fn cell(cell_type: CellType, energy: u32) -> NebulaCell {
    NebulaCell { cell_type, energy }
}

fn res(text: &str, quantity: i128) -> HarvestedResource {
    HarvestedResource { asset: sym(text), quantity }
}

#[test]
fn harvest_error_codes() {
    assert_eq!(HarvestError::ShipNotFound.code(), 1);
    assert_eq!(HarvestError::EmptyHarvest.code(), 2);
    assert_eq!(HarvestError::InvalidPrice.code(), 3);
    assert_eq!(HarvestError::AssetNotHarvested.code(), 4);
    assert_eq!(HarvestError::PriceOverflow.code(), 5);
}

#[test]
fn asset_symbols() {
    assert_eq!(HarvestAsset::StellarDust.symbol(), sym("dust"));
    assert_eq!(HarvestAsset::AsteroidOre.symbol(), sym("ore"));
    assert_eq!(HarvestAsset::GasUnits.symbol(), sym("gas"));
    assert_eq!(HarvestAsset::DarkMatter.symbol(), sym("dark"));
    assert_eq!(HarvestAsset::ExoticMatter.symbol(), sym("exotic"));
    assert_eq!(HarvestAsset::WormholeCore.symbol(), sym("worm"));
}

#[test]
fn listing_prices() {
    assert_eq!(listing_price_for(&sym("worm")), 5_000);
    assert_eq!(listing_price_for(&sym("exotic")), 1_500);
    assert_eq!(listing_price_for(&sym("dark")), 600);
    assert_eq!(listing_price_for(&sym("dust")), 90);
    assert_eq!(listing_price_for(&sym("gas")), 70);
    assert_eq!(listing_price_for(&sym("ore")), 50);
    assert_eq!(listing_price_for(&sym("gold")), 50);
}

#[test]
fn listing_choice_is_first_of_largest() {
    assert_eq!(choose_listing_asset(&vec![]), None);
    assert_eq!(choose_listing_asset(&vec![res("dust", 0), res("ore", -3)]), None);
    assert_eq!(
        choose_listing_asset(&vec![res("dust", 4), res("ore", 9), res("gas", 9), res("dark", 2)]),
        Some(res("ore", 9))
    );
    assert_eq!(choose_listing_asset(&vec![res("dust", -1), res("ore", 1)]), Some(res("ore", 1)));
}

#[test]
fn auto_list_refuses_bad_prices() {
    let mut env = fresh_env();
    assert_eq!(auto_list_on_dex(&mut env, &sym("dust"), 0), Err(HarvestError::InvalidPrice));
    assert_eq!(auto_list_on_dex(&mut env, &sym("dust"), -7), Err(HarvestError::InvalidPrice));
    assert!(env.dex_offers.is_empty());
}

#[test]
fn auto_list_needs_a_balance() {
    let mut env = fresh_env();
    assert_eq!(auto_list_on_dex(&mut env, &sym("dust"), 10), Err(HarvestError::AssetNotHarvested));
    env.balances.push(BalanceEntry { owner: contract(), asset: sym("dust"), amount: -4 });
    assert_eq!(auto_list_on_dex(&mut env, &sym("dust"), 10), Err(HarvestError::AssetNotHarvested));
    assert_eq!(env.dex_offer_counter, None);
    assert!(env.events.is_empty());
}

#[test]
fn auto_list_moves_at_most_one_hundred_units() {
    let mut env = fresh_env();
    env.balances.push(BalanceEntry { owner: contract(), asset: sym("gas"), amount: 250 });
    let offer = auto_list_on_dex(&mut env, &sym("gas"), 70).unwrap();
    assert_eq!(
        offer,
        DexOffer {
            offer_id: 1,
            seller: contract(),
            resource: sym("gas"),
            quantity: 100,
            min_price: 70,
            quote_asset: sym("xlm"),
            timestamp: 1_700_000_000,
        }
    );
    assert_eq!(balance(&env, contract(), sym("gas")), 150);
    let second = auto_list_on_dex(&mut env, &sym("gas"), 70).unwrap();
    assert_eq!(second.offer_id, 2);
    assert_eq!(balance(&env, contract(), sym("gas")), 50);
    let third = auto_list_on_dex(&mut env, &sym("gas"), 70).unwrap();
    assert_eq!(third.offer_id, 3);
    assert_eq!(third.quantity, 50);
    assert_eq!(balance(&env, contract(), sym("gas")), 0);
    assert_eq!(env.dex_offers, vec![offer, second, third]);
    assert_eq!(env.events, vec![MinterEvent::Listed(offer), MinterEvent::Listed(second), MinterEvent::Listed(third)]);
    assert!(env.auths.is_empty());
}

#[test]
fn harvest_of_unknown_ship() {
    let mut env = fresh_env();
    let layout = NebulaLayout { cells: vec![cell(CellType::Star, 10)], total_energy: 10 };
    assert_eq!(harvest_resources(&mut env, 3, None, &layout), Err(HarvestError::ShipNotFound));
    assert!(env.auths.is_empty());
    assert!(env.balances.is_empty());
}

#[test]
fn harvest_of_empty_layout() {
    let mut env = fresh_env();
    let layout = NebulaLayout { cells: vec![cell(CellType::Empty, 500), cell(CellType::Empty, 0)], total_energy: 500 };
    assert_eq!(harvest_resources(&mut env, 3, Some(addr(1)), &layout), Err(HarvestError::EmptyHarvest));
    assert_eq!(env.auths, vec![addr(1)]);
    assert!(env.balances.is_empty());
    assert_eq!(env.harvest_counter, None);
    assert!(env.events.is_empty());
}

#[test]
fn harvest_credits_and_lists() {
    let mut env = fresh_env();
    let owner = addr(1);
    env.balances.push(BalanceEntry { owner, asset: sym("ore"), amount: 10 });
    let layout = NebulaLayout {
        cells: vec![
            cell(CellType::Star, 40),        // dust 2 + 2
            cell(CellType::Asteroid, 30),    // ore 3 + 2
            cell(CellType::Wormhole, 999),   // worm 1
            cell(CellType::StellarDust, 36), // dust 1 + 2
            cell(CellType::Empty, 80),
        ],
        total_energy: 1185,
    };
    let r = harvest_resources(&mut env, 42, Some(owner), &layout).unwrap();
    assert_eq!(r.ship_id, 42);
    assert_eq!(r.owner, owner);
    assert_eq!(r.resources, vec![res("dust", 7), res("ore", 5), res("worm", 1)]);
    assert_eq!(r.total_units, 13);
    assert_eq!(r.harvested_at, 1_700_000_000);
    assert_eq!(
        r.auto_offer,
        DexOffer {
            offer_id: 1,
            seller: owner,
            resource: sym("dust"),
            quantity: 7,
            min_price: 90,
            quote_asset: sym("xlm"),
            timestamp: 1_700_000_000,
        }
    );
    assert_eq!(balance(&env, owner, sym("dust")), 0);
    assert_eq!(balance(&env, owner, sym("ore")), 15);
    assert_eq!(balance(&env, owner, sym("worm")), 1);
    assert_eq!(env.harvest_counter, Some(1));
    assert_eq!(env.dex_offer_counter, Some(1));
    assert_eq!(env.auths, vec![owner]);
    assert_eq!(
        env.events,
        vec![
            MinterEvent::Harvested {
                ship_id: 42,
                owner,
                resources: vec![res("dust", 7), res("ore", 5), res("worm", 1)],
                total_units: 13,
                total_energy: 1185,
            },
            MinterEvent::Listed(r.auto_offer),
        ]
    );
}

#[test]
fn harvest_yields_of_every_cell_type() {
    let mut env = fresh_env();
    let owner = addr(2);
    let layout = NebulaLayout {
        cells: vec![
            cell(CellType::GasCloud, 160),     // gas 2 + 10
            cell(CellType::DarkMatter, 250),   // dark 1 + 10
            cell(CellType::ExoticMatter, 300), // exotic 1 + 10
            cell(CellType::Wormhole, 0),       // worm 1
            cell(CellType::Wormhole, 0),       // worm 1
        ],
        total_energy: 710,
    };
    let r = harvest_resources(&mut env, 1, Some(owner), &layout).unwrap();
    assert_eq!(r.resources, vec![res("gas", 12), res("dark", 11), res("exotic", 11), res("worm", 2)]);
    assert_eq!(r.total_units, 36);
    assert_eq!(r.auto_offer.resource, sym("gas"));
    assert_eq!(r.auto_offer.min_price, 70);
    assert_eq!(r.auto_offer.quantity, 12);
}

#[test]
fn harvest_ties_list_the_first_resource() {
    let mut env = fresh_env();
    let owner = addr(3);
    let layout = NebulaLayout {
        cells: vec![cell(CellType::Asteroid, 30), cell(CellType::Star, 60)], // ore 5, dust 5
        total_energy: 90,
    };
    let r = harvest_resources(&mut env, 1, Some(owner), &layout).unwrap();
    assert_eq!(r.resources, vec![res("dust", 5), res("ore", 5)]);
    assert_eq!(r.auto_offer.resource, sym("dust"));
}

#[test]
fn harvest_lists_at_most_one_hundred_units() {
    let mut env = fresh_env();
    let owner = addr(4);
    let layout = NebulaLayout { cells: vec![cell(CellType::Asteroid, 3000)], total_energy: 3000 }; // ore 203
    env.dex_offer_counter = Some(41);
    let r = harvest_resources(&mut env, 9, Some(owner), &layout).unwrap();
    assert_eq!(r.resources, vec![res("ore", 203)]);
    assert_eq!(r.auto_offer.quantity, 100);
    assert_eq!(r.auto_offer.offer_id, 42);
    assert_eq!(r.auto_offer.min_price, 50);
    assert_eq!(balance(&env, owner, sym("ore")), 103);
}

#[test]
fn harvest_with_a_debt_cannot_list() {
    let mut env = fresh_env();
    let owner = addr(5);
    env.balances.push(BalanceEntry { owner, asset: sym("worm"), amount: -10 });
    let layout = NebulaLayout { cells: vec![cell(CellType::Wormhole, 1)], total_energy: 1 };
    assert_eq!(harvest_resources(&mut env, 2, Some(owner), &layout), Err(HarvestError::AssetNotHarvested));
    assert_eq!(balance(&env, owner, sym("worm")), -9);
    assert_eq!(env.harvest_counter, Some(1));
    assert_eq!(env.dex_offer_counter, None);
}

#[test]
fn harvest_fits_check_spots_overflows() {
    let owner = addr(6);
    let layout = NebulaLayout { cells: vec![cell(CellType::Asteroid, 30), cell(CellType::Star, 0)], total_energy: 30 };
    let empty = NebulaLayout { cells: vec![cell(CellType::Empty, 30)], total_energy: 30 };

    let mut env = fresh_env();
    assert!(harvest_fits_check(&env, None, &layout));
    assert!(harvest_fits_check(&env, Some(owner), &layout));

    // A balance that the harvest would push past i128::MAX.
    env.balances.push(BalanceEntry { owner, asset: sym("ore"), amount: i128::MAX - 4 });
    assert!(!harvest_fits_check(&env, Some(owner), &layout));
    env.balances.push(BalanceEntry { owner, asset: sym("ore"), amount: i128::MAX - 5 });
    assert!(harvest_fits_check(&env, Some(owner), &layout));
    // Nothing is credited by an empty harvest.
    assert!(harvest_fits_check(&env, Some(owner), &empty));

    // A full harvest counter.
    let mut env = fresh_env();
    env.harvest_counter = Some(u64::MAX);
    assert!(!harvest_fits_check(&env, Some(owner), &layout));
    assert!(harvest_fits_check(&env, Some(owner), &empty));

    // A full offer counter matters only when the listing goes ahead.
    let mut env = fresh_env();
    env.dex_offer_counter = Some(u64::MAX);
    assert!(!harvest_fits_check(&env, Some(owner), &layout));
    env.balances.push(BalanceEntry { owner, asset: sym("ore"), amount: -5 });
    assert!(harvest_fits_check(&env, Some(owner), &layout));
}
