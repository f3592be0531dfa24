//! Price lists: the services an estimate can charge for, per unit, and the
//! kind of object each one applies to.
use vstd::prelude::*;
use crate::ids::{fresh_id, v4_layout};

verus! {

/// Unit of measurement for a service.
#[derive(Debug, Clone, Copy, PartialEq, Eq, Structural)]
pub enum UnitType {
    /// Per piece.
    Piece,
    /// Per square metre.
    SquareMeter,
    /// Per linear metre.
    LinearMeter,
}

impl UnitType {
    /// The abbreviation shown after quantities.
    pub open spec fn spec_label(self) -> Seq<char> {
        match self {
            UnitType::Piece => "шт."@,
            UnitType::SquareMeter => "м²"@,
            UnitType::LinearMeter => "п.м."@,
        }
    }

    /// The abbreviation shown after quantities.
    pub fn label(&self) -> (r: &'static str)
        ensures
            r@ == self.spec_label(),
    {
        match self {
            UnitType::Piece => "шт.",
            UnitType::SquareMeter => "м²",
            UnitType::LinearMeter => "п.м.",
        }
    }

    /// Every unit, in the order offered for choice.
    pub fn all() -> (r: Vec<UnitType>)
        ensures
            r@ == seq![UnitType::Piece, UnitType::SquareMeter, UnitType::LinearMeter],
    {
        vec![UnitType::Piece, UnitType::SquareMeter, UnitType::LinearMeter]
    }
}

/// The kind of object a service applies to.
#[derive(Debug, Clone, Copy, PartialEq, Eq, Structural)]
pub enum TargetObjectType {
    Wall,
    Window,
    Door,
    Room,
}

impl TargetObjectType {
    /// The name shown for the kind.
    pub open spec fn spec_label(self) -> Seq<char> {
        match self {
            TargetObjectType::Wall => "Стена"@,
            TargetObjectType::Window => "Окно"@,
            TargetObjectType::Door => "Дверь"@,
            TargetObjectType::Room => "Помещение"@,
        }
    }

    /// The name shown for the kind.
    pub fn label(&self) -> (r: &'static str)
        ensures
            r@ == self.spec_label(),
    {
        match self {
            TargetObjectType::Wall => "Стена",
            TargetObjectType::Window => "Окно",
            TargetObjectType::Door => "Дверь",
            TargetObjectType::Room => "Помещение",
        }
    }

    /// Every kind, in the order offered for choice.
    pub fn all() -> (r: Vec<TargetObjectType>)
        ensures
            r@ == seq![
                TargetObjectType::Wall,
                TargetObjectType::Window,
                TargetObjectType::Door,
                TargetObjectType::Room,
            ],
    {
        vec![TargetObjectType::Wall, TargetObjectType::Window, TargetObjectType::Door, TargetObjectType::Room]
    }
}

/// A service of a price list; `S` is the price type (roubles per unit).
#[derive(Debug, Clone)]
pub struct ServiceTemplate<S> {
    pub id: u128,
    pub name: String,
    pub unit_type: UnitType,
    pub price_per_unit: S,
    pub target_type: TargetObjectType,
}

impl<S> ServiceTemplate<S> {
    /// A new service with a fresh id.
    pub fn new(name: String, unit_type: UnitType, price_per_unit: S, target_type: TargetObjectType) -> (r: Self)
        ensures
            v4_layout(r.id),
            r.name@ == name@,
            r.unit_type == unit_type,
            r.price_per_unit == price_per_unit,
            r.target_type == target_type,
    {
        ServiceTemplate { id: fresh_id(), name, unit_type, price_per_unit, target_type }
    }
}

/// A named collection of services.
#[derive(Debug, Clone)]
pub struct PriceList<S> {
    pub id: u128,
    pub name: String,
    pub services: Vec<ServiceTemplate<S>>,
}

/// Positions, in order, among the first `k` services, of those that apply to
/// `target` (none when there is no target).
pub open spec fn services_for_prefix<S>(services: Seq<ServiceTemplate<S>>, target: Option<TargetObjectType>, k: nat) -> Seq<usize>
    decreases k,
{
    if k == 0 || k > services.len() {
        Seq::empty()
    } else {
        let rest = services_for_prefix(services, target, (k - 1) as nat);
        if target == Some(services[k - 1].target_type) {
            rest.push((k - 1) as usize)
        } else {
            rest
        }
    }
}

impl<S> PriceList<S> {
    /// Positions, in order, of the services that can be added to an object
    /// of kind `target`; none when nothing (or nothing with services) is selected.
    pub fn services_for(&self, target: Option<TargetObjectType>) -> (r: Vec<usize>)
        ensures
            r@ == services_for_prefix(self.services@, target, self.services@.len()),
    {
        let n = self.services.len();
        let mut out: Vec<usize> = Vec::new();
        let mut i: usize = 0;
        while i < n
            invariant
                n == self.services@.len(),
                i <= n,
                out@ == services_for_prefix(self.services@, target, i as nat),
            decreases n - i,
        {
            let applies = match target {
                Some(t) => t == self.services[i].target_type,
                None => false,
            };
            if applies {
                out.push(i);
            }
            i = i + 1;
        }
        out
    }

    /// An empty price list with a fresh id.
    pub fn new(name: String) -> (r: Self)
        ensures
            v4_layout(r.id),
            r.name@ == name@,
            r.services@.len() == 0,
    {
        PriceList { id: fresh_id(), name, services: Vec::new() }
    }
}


/// The services offered for kind `target` are exactly the services whose
/// kind is `target`, by position in increasing order; none without a target.
pub proof fn services_for_are_those_of_the_kind<S>(services: Seq<ServiceTemplate<S>>, target: Option<TargetObjectType>, k: nat)
    requires
        k <= services.len() <= usize::MAX,
    ensures
        ({
            let r = services_for_prefix(services, target, k);
            &&& forall|j: int| 0 <= j < r.len() ==> r[j] < k && target == Some(services[r[j] as int].target_type)
            &&& forall|j1: int, j2: int| 0 <= j1 < j2 < r.len() ==> r[j1] < r[j2]
            &&& forall|i: int| 0 <= i < k && target == Some(#[trigger] services[i].target_type) ==> r.contains(i as usize)
            &&& target is None ==> r.len() == 0
        }),
    decreases k,
{
    if k > 0 {
        services_for_are_those_of_the_kind(services, target, (k - 1) as nat);
        let rest = services_for_prefix(services, target, (k - 1) as nat);
        let r = services_for_prefix(services, target, k);
        if target == Some(services[k - 1].target_type) {
            assert(r == rest.push((k - 1) as usize));
            assert forall|j1: int, j2: int| 0 <= j1 < j2 < r.len() implies r[j1] < r[j2] by {
                if j2 == rest.len() {
                    assert(rest[j1] < k - 1);
                }
            }
        } else {
            assert(r == rest);
        }
        assert forall|i: int| 0 <= i < k && target == Some(#[trigger] services[i].target_type) implies r.contains(i as usize) by {
            if i < k - 1 {
                let j = choose|j: int| 0 <= j < rest.len() && rest[j] == i as usize;
                assert(r[j] == i as usize);
            } else {
                assert(r[rest.len() as int] == i as usize);
            }
        }
    }
}

} // verus!
