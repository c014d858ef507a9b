//! Resource capacity and request types.

use std::ops::{Add, Sub};

use vstd::prelude::*;
use vstd::string::*;

use crate::text::{decimal, push_decimal};

verus! {

/// A description of compute resources, used both as node capacity and as
/// container requests and limits.
#[derive(Debug, Clone, Copy, PartialEq, Eq, Structural)]
pub struct ResourceSpec {
    /// CPU in millicores (1000 = 1 core).
    pub cpu_millicores: u64,
    /// Memory in mebibytes (MiB).
    pub memory_mib: u64,
}

impl ResourceSpec {
    /// This request fits within the available capacity.
    pub open spec fn fits(self, available: ResourceSpec) -> bool {
        self.cpu_millicores <= available.cpu_millicores && self.memory_mib <= available.memory_mib
    }

    /// What remains of a capacity after a request, never below zero.
    pub open spec fn minus(self, rhs: ResourceSpec) -> ResourceSpec {
        ResourceSpec {
            cpu_millicores: if self.cpu_millicores >= rhs.cpu_millicores {
                (self.cpu_millicores - rhs.cpu_millicores) as u64
            } else {
                0
            },
            memory_mib: if self.memory_mib >= rhs.memory_mib {
                (self.memory_mib - rhs.memory_mib) as u64
            } else {
                0
            },
        }
    }

    /// The rendered form.
    pub open spec fn text(self) -> Seq<char> {
        decimal(self.cpu_millicores as nat) + "m CPU / "@ + decimal(self.memory_mib as nat)
            + "Mi"@
    }

    /// Create a new resource specification.
    pub fn new(cpu_millicores: u64, memory_mib: u64) -> (r: Self)
        ensures
            r == (ResourceSpec { cpu_millicores, memory_mib }),
    {
        ResourceSpec { cpu_millicores, memory_mib }
    }

    /// Returns `true` if this spec fits within the `available` capacity.
    pub fn fits_within(&self, available: &ResourceSpec) -> (b: bool)
        ensures
            b == self.fits(*available),
    {
        self.cpu_millicores <= available.cpu_millicores && self.memory_mib <= available.memory_mib
    }

    /// Returns `true` if both CPU and memory are zero.
    pub fn is_zero(&self) -> (b: bool)
        ensures
            b == (self.cpu_millicores == 0 && self.memory_mib == 0),
    {
        self.cpu_millicores == 0 && self.memory_mib == 0
    }

    /// Render the specification.
    pub fn to_string(&self) -> (s: String)
        ensures
            s@ == self.text(),
    {
        let mut s = String::new();
        push_decimal(&mut s, self.cpu_millicores);
        assert(s@ =~= decimal(self.cpu_millicores as nat));
        s.append("m CPU / ");
        push_decimal(&mut s, self.memory_mib);
        s.append("Mi");
        s
    }
}

impl Default for ResourceSpec {
    /// One CPU and 512 MiB.
    fn default() -> (r: Self)
        ensures
            r == (ResourceSpec { cpu_millicores: 1000, memory_mib: 512 }),
    {
        ResourceSpec::new(1000, 512)
    }
}

impl Add for ResourceSpec {
    type Output = Self;

    fn add(self, rhs: Self) -> (r: Self) {
        ResourceSpec {
            cpu_millicores: self.cpu_millicores + rhs.cpu_millicores,
            memory_mib: self.memory_mib + rhs.memory_mib,
        }
    }
}

impl vstd::std_specs::ops::AddSpecImpl for ResourceSpec {
    open spec fn obeys_add_spec() -> bool {
        true
    }

    /// The sums fit.
    open spec fn add_req(self, rhs: Self) -> bool {
        self.cpu_millicores + rhs.cpu_millicores <= u64::MAX && self.memory_mib + rhs.memory_mib
            <= u64::MAX
    }

    open spec fn add_spec(self, rhs: Self) -> Self {
        ResourceSpec {
            cpu_millicores: (self.cpu_millicores + rhs.cpu_millicores) as u64,
            memory_mib: (self.memory_mib + rhs.memory_mib) as u64,
        }
    }
}

impl Sub for ResourceSpec {
    type Output = Self;

    fn sub(self, rhs: Self) -> (r: Self) {
        ResourceSpec {
            cpu_millicores: self.cpu_millicores.saturating_sub(rhs.cpu_millicores),
            memory_mib: self.memory_mib.saturating_sub(rhs.memory_mib),
        }
    }
}

impl vstd::std_specs::ops::SubSpecImpl for ResourceSpec {
    open spec fn obeys_sub_spec() -> bool {
        true
    }

    open spec fn sub_req(self, rhs: Self) -> bool {
        true
    }

    open spec fn sub_spec(self, rhs: Self) -> Self {
        self.minus(rhs)
    }
}

/// Taking a request out of a capacity that it fits in and adding it back gives
/// the capacity.
pub proof fn minus_undoes_add(capacity: ResourceSpec, request: ResourceSpec)
    requires
        request.fits(capacity),
    ensures
        capacity.minus(request).cpu_millicores + request.cpu_millicores
            == capacity.cpu_millicores,
        capacity.minus(request).memory_mib + request.memory_mib == capacity.memory_mib,
        capacity.minus(request).fits(capacity),
{
}

/// A request fits exactly where neither the CPU nor the memory falls short, and what is
/// left of a capacity is, for each of the two, the difference or nothing.
pub proof fn fitting_goes_by_cpu_and_memory(capacity: ResourceSpec, request: ResourceSpec)
    ensures
        request.fits(capacity) <==> request.cpu_millicores <= capacity.cpu_millicores
            && request.memory_mib <= capacity.memory_mib,
        capacity.cpu_millicores >= request.cpu_millicores ==> capacity.minus(
            request,
        ).cpu_millicores == capacity.cpu_millicores - request.cpu_millicores,
        capacity.cpu_millicores < request.cpu_millicores ==> capacity.minus(
            request,
        ).cpu_millicores == 0,
        capacity.memory_mib >= request.memory_mib ==> capacity.minus(request).memory_mib
            == capacity.memory_mib - request.memory_mib,
        capacity.memory_mib < request.memory_mib ==> capacity.minus(request).memory_mib == 0,
{
}

/// Sums are taken of CPU and memory separately, and taking either summand out again
/// leaves the other.
pub proof fn add_is_componentwise(a: ResourceSpec, b: ResourceSpec)
    requires
        a.cpu_millicores + b.cpu_millicores <= u64::MAX,
        a.memory_mib + b.memory_mib <= u64::MAX,
    ensures
        vstd::std_specs::ops::AddSpec::add_req(a, b),
        ({
            let sum = vstd::std_specs::ops::AddSpec::add_spec(a, b);
            &&& sum.cpu_millicores == a.cpu_millicores + b.cpu_millicores
            &&& sum.memory_mib == a.memory_mib + b.memory_mib
            &&& vstd::std_specs::ops::SubSpec::sub_spec(sum, a) == b
            &&& vstd::std_specs::ops::SubSpec::sub_spec(sum, b) == a
        }),
{
}

} // verus!
