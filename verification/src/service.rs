//! The services whose lines are shown.

use crate::text::same_str;
use vstd::prelude::*;

verus! {

/// A container that can be switched on and off.
pub struct ContainerFilterOption {
    pub id: String,
    pub name: String,
    pub enabled: bool,
    pub is_running: bool,
    pub has_error: bool,
}

/// What an option holds.
#[verifier::ext_equal]
pub struct ServiceView {
    pub id: Seq<char>,
    pub name: Seq<char>,
    pub enabled: bool,
    pub is_running: bool,
    pub has_error: bool,
}

impl View for ContainerFilterOption {
    type V = ServiceView;

    open spec fn view(&self) -> ServiceView {
        ServiceView {
            id: self.id@,
            name: self.name@,
            enabled: self.enabled,
            is_running: self.is_running,
            has_error: self.has_error,
        }
    }
}

/// What each option of a list holds.
pub open spec fn services_view(v: Seq<ContainerFilterOption>) -> Seq<ServiceView> {
    v.map_values(|o: ContainerFilterOption| o@)
}

/// Whether a service is switched on, as the last of the first `n` options with
/// its name has it; a service without an option is on.
pub open spec fn enabled_among(opts: Seq<ServiceView>, name: Seq<char>, n: int) -> bool
    decreases n,
{
    if !(0 < n <= opts.len()) {
        true
    } else if opts[n - 1].name == name {
        opts[n - 1].enabled
    } else {
        enabled_among(opts, name, n - 1)
    }
}

pub open spec fn service_enabled(opts: Seq<ServiceView>, name: Seq<char>) -> bool {
    enabled_among(opts, name, opts.len() as int)
}

pub fn is_service_enabled(opts: &Vec<ContainerFilterOption>, name: &str) -> (r: bool)
    ensures
        r == service_enabled(services_view(opts@), name@),
{
    let mut n: usize = opts.len();
    while n > 0
        invariant
            n <= opts@.len(),
            service_enabled(services_view(opts@), name@) == enabled_among(services_view(opts@), name@, n as int),
        decreases n,
    {
        let o = &opts[n - 1];
        assert(services_view(opts@)[n - 1] == o@);
        if same_str(o.name.as_str(), name) {
            return o.enabled;
        }
        n -= 1;
    }
    true
}

/// Whether the first option from `i` on with this name, if there is one, is switched on.
pub open spec fn first_enabled(opts: Seq<ServiceView>, name: Seq<char>, i: int) -> bool
    decreases opts.len() - i,
{
    if !(0 <= i < opts.len()) {
        true
    } else if opts[i].name == name {
        opts[i].enabled
    } else {
        first_enabled(opts, name, i + 1)
    }
}

pub fn is_first_enabled(opts: &Vec<ContainerFilterOption>, name: &str) -> (r: bool)
    ensures
        r == first_enabled(services_view(opts@), name@, 0),
{
    let mut i: usize = 0;
    while i < opts.len()
        invariant
            i <= opts@.len(),
            first_enabled(services_view(opts@), name@, 0) == first_enabled(services_view(opts@), name@, i as int),
        decreases opts@.len() - i,
    {
        let o = &opts[i];
        assert(services_view(opts@)[i as int] == o@);
        if same_str(o.name.as_str(), name) {
            return o.enabled;
        }
        i += 1;
    }
    true
}

/// Where no two options share a name, the first and the last option of a name agree.
pub proof fn law_one_option_per_name(opts: Seq<ServiceView>, name: Seq<char>)
    requires
        forall|i: int, j: int| 0 <= i < j < opts.len() ==> (#[trigger] opts[i]).name != (#[trigger] opts[j]).name,
    ensures
        first_enabled(opts, name, 0) == service_enabled(opts, name),
{
    lemma_first(opts, name, 0);
    lemma_among(opts, name, opts.len() as int);
}

proof fn lemma_first(opts: Seq<ServiceView>, name: Seq<char>, i: int)
    requires
        0 <= i <= opts.len(),
        forall|i: int, j: int| 0 <= i < j < opts.len() ==> (#[trigger] opts[i]).name != (#[trigger] opts[j]).name,
    ensures
        forall|k: int| i <= k < opts.len() && (#[trigger] opts[k]).name == name ==> first_enabled(opts, name, i)
            == opts[k].enabled,
        (forall|k: int| i <= k < opts.len() ==> (#[trigger] opts[k]).name != name) ==> first_enabled(opts, name, i),
    decreases opts.len() - i,
{
    if i < opts.len() {
        lemma_first(opts, name, i + 1);
    }
}

proof fn lemma_among(opts: Seq<ServiceView>, name: Seq<char>, n: int)
    requires
        0 <= n <= opts.len(),
        forall|i: int, j: int| 0 <= i < j < opts.len() ==> (#[trigger] opts[i]).name != (#[trigger] opts[j]).name,
    ensures
        forall|k: int| 0 <= k < n && (#[trigger] opts[k]).name == name ==> enabled_among(opts, name, n)
            == opts[k].enabled,
        (forall|k: int| 0 <= k < n ==> (#[trigger] opts[k]).name != name) ==> enabled_among(opts, name, n),
    decreases n,
{
    if n > 0 {
        lemma_among(opts, name, n - 1);
    }
}

/// The last option with a name decides on the service for a query, the first one for
/// a single line; a service without an option is on.
pub proof fn law_option_decides(opts: Seq<ServiceView>, name: Seq<char>, i: int)
    ensures
        0 <= i < opts.len() && opts[i].name == name && (forall|j: int|
            i < j < opts.len() ==> (#[trigger] opts[j]).name != name) ==> service_enabled(opts, name)
            == opts[i].enabled,
        0 <= i < opts.len() && opts[i].name == name && (forall|j: int|
            0 <= j < i ==> (#[trigger] opts[j]).name != name) ==> first_enabled(opts, name, 0) == opts[i].enabled,
        (forall|j: int| 0 <= j < opts.len() ==> (#[trigger] opts[j]).name != name) ==> service_enabled(opts, name)
            && first_enabled(opts, name, 0),
{
    lemma_last_decides(opts, name, i, opts.len() as int);
    lemma_first_decides(opts, name, i, 0);
}

proof fn lemma_last_decides(opts: Seq<ServiceView>, name: Seq<char>, i: int, n: int)
    requires
        0 <= n <= opts.len(),
    ensures
        0 <= i < n && opts[i].name == name && (forall|j: int| i < j < n ==> (#[trigger] opts[j]).name != name)
            ==> enabled_among(opts, name, n) == opts[i].enabled,
        (forall|j: int| 0 <= j < n ==> (#[trigger] opts[j]).name != name) ==> enabled_among(opts, name, n),
    decreases n,
{
    if n > 0 {
        lemma_last_decides(opts, name, i, n - 1);
    }
}

proof fn lemma_first_decides(opts: Seq<ServiceView>, name: Seq<char>, i: int, k: int)
    requires
        0 <= k <= opts.len(),
    ensures
        k <= i < opts.len() && opts[i].name == name && (forall|j: int|
            k <= j < i ==> (#[trigger] opts[j]).name != name) ==> first_enabled(opts, name, k) == opts[i].enabled,
        (forall|j: int| k <= j < opts.len() ==> (#[trigger] opts[j]).name != name) ==> first_enabled(opts, name, k),
    decreases opts.len() - k,
{
    if k < opts.len() {
        lemma_first_decides(opts, name, i, k + 1);
    }
}

} // verus!
