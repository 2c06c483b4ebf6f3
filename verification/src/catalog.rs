use vstd::prelude::*;
use crate::error::ErrorCode;

verus! {

/// A reward tier: what it costs to enter, what it pays, how long the deposit
/// is held, and how many stakes it admits.
#[derive(Clone, Debug, PartialEq, Eq)]
pub struct Package {
    /// Display label.
    pub name: String,
    /// Amount to be deposited to enter the tier.
    pub deposit_amount: u64,
    /// Seconds for which a stake is held before it can be withdrawn.
    pub period: i64,
    /// Amount paid out on withdrawal, deposit and yield in one sum.
    pub reward_amount: u64,
    /// Number of stakes that the tier admits.
    pub slot_limit: u8,
    /// Number of stakes that the tier has admitted so far.
    pub slot_count: u8,
}

/// A [`Package`] over mathematical values.
pub struct PackageView {
    pub name: Seq<char>,
    pub deposit_amount: nat,
    pub period: int,
    pub reward_amount: nat,
    pub slot_limit: nat,
    pub slot_count: nat,
}

impl View for Package {
    type V = PackageView;

    open spec fn view(&self) -> PackageView {
        PackageView {
            name: self.name@,
            deposit_amount: self.deposit_amount as nat,
            period: self.period as int,
            reward_amount: self.reward_amount as nat,
            slot_limit: self.slot_limit as nat,
            slot_count: self.slot_count as nat,
        }
    }
}

/// Number of tiers in the catalog that [`PackageCatalog::initialize`] makes.
pub const TIER_COUNT: usize = 6;

/// A tier with the given terms and no slot taken.
pub open spec fn fresh_tier(
    name: Seq<char>,
    deposit_amount: nat,
    reward_amount: nat,
    period: int,
    slot_limit: nat,
) -> PackageView {
    PackageView { name, deposit_amount, period, reward_amount, slot_limit, slot_count: 0 }
}

/// The catalog as it stands before the first stake: six tiers, from a month
/// to a year of holding, none with a slot taken.
pub open spec fn initial_catalog() -> Seq<PackageView> {
    seq![
        fresh_tier("Pete's Pebble Pounch"@, 500000, 539583, 2592000, 80),
        fresh_tier("Golden Wheel Guild"@, 1000000, 1108333, 5184000, 70),
        fresh_tier("Burrower's Bounty"@, 2000000, 2250000, 7776000, 60),
        fresh_tier("Cheek Pounch Chest"@, 3000000, 3525000, 15552000, 50),
        fresh_tier("Hamster Haven Hoard"@, 4000000, 4750000, 23328000, 40),
        fresh_tier("Oxonis Wizard"@, 5000000, 6000000, 31104000, 30),
    ]
}

/// Whether `index` names a tier of `catalog`.
pub open spec fn valid_index(catalog: Seq<PackageView>, index: nat) -> bool {
    index < catalog.len()
}

/// Whether the tier still admits a stake. A tier is full once its count has
/// reached its limit.
pub open spec fn has_free_slot(package: PackageView) -> bool {
    package.slot_count < package.slot_limit
}

/// The tier with one more slot taken; its terms are untouched.
pub open spec fn with_slot_taken(package: PackageView) -> PackageView {
    PackageView { slot_count: package.slot_count + 1, ..package }
}

/// The catalog after a slot of tier `index` has been taken: that tier's count
/// is one higher, and nothing else differs.
pub open spec fn reserve(catalog: Seq<PackageView>, index: nat) -> Seq<PackageView> {
    catalog.update(index as int, with_slot_taken(catalog[index as int]))
}

/// Whether no tier of the catalog has admitted more stakes than its limit.
pub open spec fn within_limits(catalog: Seq<PackageView>) -> bool {
    forall|i: int| 0 <= i < catalog.len() ==> (#[trigger] catalog[i]).slot_count <= catalog[i].slot_limit
}

/// Whether two catalogs hold the same tiers on the same terms, whatever
/// their slot counts.
pub open spec fn same_terms(before: Seq<PackageView>, after: Seq<PackageView>) -> bool {
    &&& before.len() == after.len()
    &&& forall|i: int|
        0 <= i < before.len() ==> (#[trigger] after[i]) == (PackageView {
            slot_count: after[i].slot_count,
            ..before[i]
        })
}

/// The tiers on offer, in a fixed order, each with the number of slots taken.
///
/// The terms of a tier never change once the catalog exists; only
/// [`PackageCatalog::reserve_slot`] changes anything, and it only counts up.
#[derive(Clone, Debug)]
pub struct PackageCatalog {
    packages: Vec<Package>,
}

impl View for PackageCatalog {
    type V = Seq<PackageView>;

    closed spec fn view(&self) -> Seq<PackageView> {
        self.packages@.map_values(|p: Package| p@)
    }
}

impl PackageCatalog {
    /// The catalog of [`initial_catalog`].
    pub fn initialize() -> (catalog: PackageCatalog)
        ensures
            catalog@ == initial_catalog(),
            catalog@.len() == TIER_COUNT,
            within_limits(catalog@),
    {
        let mut packages: Vec<Package> = Vec::new();
        packages.push(
            Package {
                name: "Pete's Pebble Pounch".to_owned(),
                deposit_amount: 500000,
                period: 2592000,
                reward_amount: 539583,
                slot_limit: 80,
                slot_count: 0,
            },
        );
        packages.push(
            Package {
                name: "Golden Wheel Guild".to_owned(),
                deposit_amount: 1000000,
                period: 5184000,
                reward_amount: 1108333,
                slot_limit: 70,
                slot_count: 0,
            },
        );
        packages.push(
            Package {
                name: "Burrower's Bounty".to_owned(),
                deposit_amount: 2000000,
                period: 7776000,
                reward_amount: 2250000,
                slot_limit: 60,
                slot_count: 0,
            },
        );
        packages.push(
            Package {
                name: "Cheek Pounch Chest".to_owned(),
                deposit_amount: 3000000,
                period: 15552000,
                reward_amount: 3525000,
                slot_limit: 50,
                slot_count: 0,
            },
        );
        packages.push(
            Package {
                name: "Hamster Haven Hoard".to_owned(),
                deposit_amount: 4000000,
                period: 23328000,
                reward_amount: 4750000,
                slot_limit: 40,
                slot_count: 0,
            },
        );
        packages.push(
            Package {
                name: "Oxonis Wizard".to_owned(),
                deposit_amount: 5000000,
                period: 31104000,
                reward_amount: 6000000,
                slot_limit: 30,
                slot_count: 0,
            },
        );
        let catalog = PackageCatalog { packages };
        assert(catalog@ =~= initial_catalog());
        catalog
    }

    /// The catalog that holds the given tiers, in the given order.
    pub fn from_packages(packages: Vec<Package>) -> (catalog: PackageCatalog)
        ensures
            catalog@ == packages@.map_values(|p: Package| p@),
    {
        PackageCatalog { packages }
    }

    /// The tiers of the catalog, in order.
    pub fn into_packages(self) -> (packages: Vec<Package>)
        ensures
            packages@.map_values(|p: Package| p@) == self@,
    {
        self.packages
    }

    /// Number of tiers.
    pub fn len(&self) -> (count: usize)
        ensures
            count == self@.len(),
    {
        self.packages.len()
    }

    /// The tier at `index`, or `InvalidPackageIndex` where the catalog has no
    /// such tier.
    pub fn get(&self, index: u8) -> (found: Result<&Package, ErrorCode>)
        ensures
            valid_index(self@, index as nat) ==> found is Ok && found->Ok_0@ == self@[index as int],
            !valid_index(self@, index as nat) ==> found == Err::<&Package, ErrorCode>(
                ErrorCode::InvalidPackageIndex,
            ),
    {
        let i = index as usize;
        if i < self.packages.len() {
            Ok(&self.packages[i])
        } else {
            Err(ErrorCode::InvalidPackageIndex)
        }
    }

    /// Takes one slot of the tier at `index`.
    ///
    /// Fails with `InvalidPackageIndex` where there is no such tier and with
    /// `PackageSlotFulFilled` where the tier is full; the catalog is then left
    /// as it was.
    pub fn reserve_slot(&mut self, index: u8) -> (taken: Result<(), ErrorCode>)
        ensures
            !valid_index(old(self)@, index as nat) ==> taken == Err::<(), ErrorCode>(
                ErrorCode::InvalidPackageIndex,
            ) && final(self)@ == old(self)@,
            valid_index(old(self)@, index as nat) && !has_free_slot(old(self)@[index as int])
                ==> taken == Err::<(), ErrorCode>(ErrorCode::PackageSlotFulFilled) && final(self)@
                == old(self)@,
            valid_index(old(self)@, index as nat) && has_free_slot(old(self)@[index as int])
                ==> taken == Ok::<(), ErrorCode>(()) && final(self)@ == reserve(
                old(self)@,
                index as nat,
            ),
    {
        let i = index as usize;
        if i >= self.packages.len() {
            return Err(ErrorCode::InvalidPackageIndex);
        }
        let count = self.packages[i].slot_count;
        if count >= self.packages[i].slot_limit {
            return Err(ErrorCode::PackageSlotFulFilled);
        }
        self.packages[i].slot_count = count + 1;
        assert(self@ =~= reserve(old(self)@, index as nat));
        Ok(())
    }
}

} // verus!
