//! The register: named options, each wired to one of its alternatives.
use vstd::prelude::*;
use crate::names::is_place_of;
use crate::names::lemma_place_unique;
use crate::names::lemma_text_order;
use crate::names::name_before;
use crate::names::names_ascend;
use crate::names::place_of;
use crate::names::same_name;
use crate::names::text_before;
use crate::option_model::OptionModel;
use crate::option_model::lemma_with_value;
use crate::option_model::lookup;
use crate::option_model::options_wf;
use crate::option_model::wire_one;
use crate::option_model::wired_among;
use crate::option_model::wired_to;
use crate::service::ServiceHandle;
use crate::service::TypeTag;

verus! {

/// Describes one type of service to the register: the option it is wired
/// under, and the tag of the type.
#[derive(Clone, Copy, Debug)]
pub struct ServiceReflect {
    pub option_name: &'static str,
    pub tag: TypeTag,
}

/// Why the register has no service of the type that was asked for.
#[derive(Clone, Copy, Debug)]
pub enum GetSerectError<'a> {
    /// The option is wired to a single service, and that service is of the
    /// type `found`, not `expected`.
    TypeMismatch { option_name: &'a str, expected: TypeTag, found: TypeTag },
    /// There is no option of this name, or the option is wired to an
    /// alternative of another type.
    NotFound(&'a str),
    /// The option has alternatives, and none of them is wired.
    MissingWiring(&'a str),
}

impl<'a> GetSerectError<'a> {
    /// The mismatch between what `expected` describes and a service of the
    /// type `found`.
    pub fn type_mismatch(expected: &ServiceReflect, found: TypeTag) -> (err: GetSerectError<
        'static,
    >)
        ensures
            err == (GetSerectError::TypeMismatch {
                option_name: expected.option_name,
                expected: expected.tag,
                found,
            }),
    {
        GetSerectError::TypeMismatch {
            option_name: expected.option_name,
            expected: expected.tag,
            found,
        }
    }
}

/// An option of the register.
pub enum WiringOption<V> {
    /// An option with any number of named alternatives, wired to at most one
    /// of them.
    Multi { wired: Option<usize>, alternatives: Vec<(String, ServiceHandle<V>)> },
    /// An option with one service, to which it is always wired.
    Single(ServiceHandle<V>),
}

impl<V> View for WiringOption<V> {
    type V = OptionModel<V>;

    open spec fn view(&self) -> OptionModel<V> {
        match *self {
            WiringOption::Multi { wired, alternatives } => OptionModel::Multi {
                wired: match wired {
                    Some(i) => Some(i as int),
                    None => None,
                },
                alternatives: Seq::new(
                    alternatives@.len(),
                    |i: int| (alternatives@[i].0@, alternatives@[i].1),
                ),
            },
            WiringOption::Single(service) => OptionModel::Single(service),
        }
    }
}

impl<V> WiringOption<V> {
    /// A new option without alternatives, wired to nothing.
    pub fn new() -> (option: Self)
        ensures
            option@ == OptionModel::<V>::fresh(),
    {
        let option = WiringOption::Multi { wired: None, alternatives: Vec::new() };
        assert(option@->alternatives =~= Seq::empty());
        option
    }

    /// The position of the alternative `alt_name`, if the option has it.
    pub fn position(&self, alt_name: &str) -> (at: Option<usize>)
        requires
            self@.wf(),
        ensures
            match at {
                Some(i) => self@.has(alt_name@) && i == self@.index_of(alt_name@) && i
                    < self@->alternatives.len(),
                None => !self@.has(alt_name@),
            },
    {
        match self {
            WiringOption::Multi { alternatives, .. } => {
                let ghost names = self@->alternatives;
                let mut i: usize = 0;
                while i < alternatives.len()
                    invariant
                        self@.wf(),
                        self@ is Multi,
                        names == self@->alternatives,
                        names.len() == alternatives@.len(),
                        forall|j: int|
                            0 <= j < names.len() ==> (#[trigger] names[j]).0 == alternatives@[j].0@,
                        i <= alternatives.len(),
                        forall|j: int| 0 <= j < i ==> (#[trigger] names[j]).0 != alt_name@,
                    decreases alternatives.len() - i,
                {
                    if same_name(alternatives[i].0.as_str(), alt_name) {
                        proof {
                            let c = self@.index_of(alt_name@);
                            assert(names[i as int].0 == alt_name@);
                            if c < i {
                                assert(names[c].0 != names[i as int].0);
                            }
                            if i < c {
                                assert(names[i as int].0 != names[c].0);
                            }
                        }
                        return Some(i);
                    }
                    i += 1;
                }
                None
            },
            WiringOption::Single(_) => None,
        }
    }

    /// Whether the option has an alternative of the name `alt_name`.
    pub fn has_alternative(&self, alt_name: &str) -> (has: bool)
        requires
            self@.wf(),
        ensures
            has == self@.has(alt_name@),
    {
        self.position(alt_name).is_some()
    }

    /// Adds the alternative `alt_name`. What is wired does not change.
    pub fn add_alternative(&mut self, alt_name: String, service: ServiceHandle<V>)
        requires
            old(self)@.wf(),
            old(self)@ is Multi,
            !old(self)@.has(alt_name@),
        ensures
            final(self)@.wf(),
            final(self)@ == old(self)@.add(alt_name@, service),
    {
        match self {
            WiringOption::Multi { alternatives, .. } => {
                alternatives.push((alt_name, service));
            },
            WiringOption::Single(_) => {},
        }
        proof {
            let before = old(self)@->alternatives;
            let now = self@->alternatives;
            assert(now =~= before.push((alt_name@, service)));
            assert forall|i: int, j: int| 0 <= i < j < now.len() implies (#[trigger] now[i]).0 != (
            #[trigger] now[j]).0 by {
                if j < before.len() {
                    assert(before[i].0 != before[j].0);
                } else {
                    assert(before[i].0 != alt_name@);
                }
            }
        }
    }

    /// Wires the option to its alternative `alt_name`. The alternatives do
    /// not change.
    pub fn wire_alternative(&mut self, alt_name: &str)
        requires
            old(self)@.wf(),
            old(self)@.has(alt_name@),
        ensures
            final(self)@.wf(),
            final(self)@ == old(self)@.wire(alt_name@),
    {
        let at = self.position(alt_name);
        match self {
            WiringOption::Multi { wired, .. } => {
                *wired = at;
            },
            WiringOption::Single(_) => {},
        }
        assert(self@->alternatives =~= old(self)@->alternatives);
    }

    /// The service that the option is wired to, if it is wired.
    pub fn service(&self) -> (service: Option<&ServiceHandle<V>>)
        requires
            self@.wf(),
        ensures
            service == (match self@.current() {
                Some(s) => Some(&s),
                None => None,
            }),
    {
        match self {
            WiringOption::Single(service) => Some(service),
            WiringOption::Multi { wired, alternatives } => match wired {
                Some(idx) => Some(&alternatives[*idx].1),
                None => None,
            },
        }
    }

    /// The value of the service that the option is wired to, for writing.
    /// Nothing but that value can change through it.
    pub fn service_mut(&mut self) -> (service: Option<&mut V>)
        requires
            old(self)@.wf(),
        ensures
            match service {
                Some(value) => {
                    &&& old(self)@.current() is Some
                    &&& *value == old(self)@.current()->Some_0.value
                    &&& final(self)@ =~= old(self)@.with_value(*final(value))
                },
                None => old(self)@.current() is None && final(self)@ == old(self)@,
            },
    {
        match self {
            WiringOption::Single(service) => Some(&mut service.value),
            WiringOption::Multi { wired, alternatives } => match wired {
                Some(idx) => Some(&mut alternatives[*idx].1.value),
                None => None,
            },
        }
    }
}

/// Whether one of `entries` has the name `name`.
spec fn listed<V>(entries: Seq<(Seq<char>, OptionModel<V>)>, name: Seq<char>) -> bool {
    exists|i: int| 0 <= i < entries.len() && (#[trigger] entries[i]).0 == name
}

/// The position of the entry with the name `name`, where there is one.
spec fn listed_at<V>(entries: Seq<(Seq<char>, OptionModel<V>)>, name: Seq<char>) -> int {
    choose|i: int| 0 <= i < entries.len() && (#[trigger] entries[i]).0 == name
}

/// The names ascend, so that no two entries share a name, and each option
/// is well formed.
spec fn list_wf<V>(entries: Seq<(Seq<char>, OptionModel<V>)>) -> bool {
    &&& forall|i: int, j: int|
        0 <= i < j < entries.len() ==> (#[trigger] entries[i]).0 != (#[trigger] entries[j]).0
    &&& forall|i: int, j: int|
        0 <= i < j < entries.len() ==> text_before(
            (#[trigger] entries[i]).0,
            (#[trigger] entries[j]).0,
        )
    &&& forall|i: int| 0 <= i < entries.len() ==> (#[trigger] entries[i]).1.wf()
}

/// The options by name.
spec fn as_map<V>(entries: Seq<(Seq<char>, OptionModel<V>)>) -> Map<Seq<char>, OptionModel<V>> {
    Map::new(
        |name: Seq<char>| listed(entries, name),
        |name: Seq<char>| entries[listed_at(entries, name)].1,
    )
}

/// The names, in the order of the entries.
spec fn names_of<V>(entries: Seq<(Seq<char>, OptionModel<V>)>) -> Seq<Seq<char>> {
    Seq::new(entries.len(), |i: int| entries[i].0)
}

/// An entry found at `i` is the entry of its name.
proof fn lemma_listed<V>(entries: Seq<(Seq<char>, OptionModel<V>)>, i: int)
    requires
        list_wf(entries),
        0 <= i < entries.len(),
    ensures
        listed(entries, entries[i].0),
        listed_at(entries, entries[i].0) == i,
        as_map(entries).contains_key(entries[i].0),
        as_map(entries)[entries[i].0] == entries[i].1,
{
    let c = listed_at(entries, entries[i].0);
    if c < i {
        assert(entries[c].0 != entries[i].0);
    }
    if i < c {
        assert(entries[i].0 != entries[c].0);
    }
}

/// One more entry under a new name, at the place of the name, is one more
/// option in the map.
proof fn lemma_inserted<V>(
    entries: Seq<(Seq<char>, OptionModel<V>)>,
    p: int,
    name: Seq<char>,
    option: OptionModel<V>,
)
    requires
        list_wf(entries),
        !listed(entries, name),
        option.wf(),
        is_place_of(names_of(entries), name, p),
    ensures
        list_wf(entries.insert(p, (name, option))),
        as_map(entries.insert(p, (name, option))) == as_map(entries).insert(name, option),
        names_of(entries.insert(p, (name, option))) == names_of(entries).insert(p, name),
{
    let now = entries.insert(p, (name, option));
    let names = names_of(entries);
    assert forall|i: int, j: int| 0 <= i < j < now.len() implies (#[trigger] now[i]).0 != (
    #[trigger] now[j]).0 && text_before(now[i].0, now[j].0) by {
        let a = if i < p { i } else { i - 1 };
        let b = if j < p { j } else { j - 1 };
        if i != p && j != p {
            assert(now[i] == entries[a]);
            assert(now[j] == entries[b]);
            assert(entries[a].0 != entries[b].0);
            assert(text_before(entries[a].0, entries[b].0));
        } else if i == p {
            assert(now[j] == entries[b]);
            assert(entries[b].0 != name);
            assert(text_before(name, names[b]));
        } else {
            assert(now[i] == entries[a]);
            assert(entries[a].0 != name);
            assert(text_before(names[a], name));
        }
    }
    assert forall|i: int| 0 <= i < now.len() implies (#[trigger] now[i]).1.wf() by {
        if i < p {
            assert(now[i] == entries[i]);
        } else if i > p {
            assert(now[i] == entries[i - 1]);
        }
    }
    assert forall|n: Seq<char>| as_map(now).contains_key(n) == as_map(entries).insert(
        name,
        option,
    ).contains_key(n) by {
        if listed(now, n) {
            let i = listed_at(now, n);
            if i < p {
                assert(entries[i].0 == n);
            } else if i > p {
                assert(entries[i - 1].0 == n);
            }
        }
        if listed(entries, n) {
            let i = listed_at(entries, n);
            if i < p {
                assert(now[i].0 == n);
            } else {
                assert(now[i + 1].0 == n);
            }
        }
        if n == name {
            assert(now[p].0 == n);
        }
    }
    assert forall|n: Seq<char>| as_map(now).contains_key(n) implies as_map(now)[n] == as_map(
        entries,
    ).insert(name, option)[n] by {
        let i = listed_at(now, n);
        lemma_listed(now, i);
        if i < p {
            assert(entries[i] == now[i]);
            lemma_listed(entries, i);
        } else if i > p {
            assert(entries[i - 1] == now[i]);
            lemma_listed(entries, i - 1);
        }
    }
    assert(as_map(now) =~= as_map(entries).insert(name, option));
    assert(names_of(now) =~= names_of(entries).insert(p, name));
}

/// Another option in the place of an entry is another option under the
/// same name in the map.
proof fn lemma_replaced<V>(entries: Seq<(Seq<char>, OptionModel<V>)>, i: int, option: OptionModel<V>)
    requires
        list_wf(entries),
        0 <= i < entries.len(),
        option.wf(),
    ensures
        list_wf(entries.update(i, (entries[i].0, option))),
        as_map(entries.update(i, (entries[i].0, option))) == as_map(entries).insert(
            entries[i].0,
            option,
        ),
        names_of(entries.update(i, (entries[i].0, option))) == names_of(entries),
{
    let name = entries[i].0;
    let now = entries.update(i, (name, option));
    assert forall|a: int, b: int| 0 <= a < b < now.len() implies (#[trigger] now[a]).0 != (
    #[trigger] now[b]).0 && text_before(now[a].0, now[b].0) by {
        assert(entries[a].0 != entries[b].0);
        assert(text_before(entries[a].0, entries[b].0));
    }
    assert forall|a: int| 0 <= a < now.len() implies (#[trigger] now[a]).1.wf() by {
        if a != i {
            assert(entries[a].1.wf());
        }
    }
    assert forall|n: Seq<char>| as_map(now).contains_key(n) == as_map(entries).insert(
        name,
        option,
    ).contains_key(n) by {
        if listed(now, n) {
            let a = listed_at(now, n);
            assert(entries[a].0 == n);
        }
        if listed(entries, n) {
            let a = listed_at(entries, n);
            assert(now[a].0 == n);
        }
        if n == name {
            assert(now[i].0 == n);
        }
    }
    assert forall|n: Seq<char>| as_map(now).contains_key(n) implies as_map(now)[n] == as_map(
        entries,
    ).insert(name, option)[n] by {
        let a = listed_at(now, n);
        lemma_listed(now, a);
        lemma_listed(entries, a);
    }
    assert(as_map(now) =~= as_map(entries).insert(name, option));
    assert(names_of(now) =~= names_of(entries));
}

/// The wired services among the first entries are the wired services among
/// the options that their names name.
proof fn lemma_wired_among<V>(entries: Seq<(Seq<char>, OptionModel<V>)>, upto: int)
    requires
        list_wf(entries),
        0 < upto <= entries.len(),
    ensures
        wired_among(names_of(entries), as_map(entries), upto) == (match entries[upto
            - 1].1.current() {
            Some(service) => wired_among(names_of(entries), as_map(entries), upto - 1).push(
                (entries[upto - 1].0, service.value),
            ),
            None => wired_among(names_of(entries), as_map(entries), upto - 1),
        }),
{
    lemma_listed(entries, upto - 1);
}

/// The options of a register, by name.
pub struct ServiceMap<V> {
    options: Vec<(String, WiringOption<V>)>,
}

impl<V> View for ServiceMap<V> {
    type V = Map<Seq<char>, OptionModel<V>>;

    closed spec fn view(&self) -> Map<Seq<char>, OptionModel<V>> {
        as_map(self.entries())
    }
}

impl<V> ServiceMap<V> {
    /// The options with their names, in ascending order of the names.
    spec fn entries(&self) -> Seq<(Seq<char>, OptionModel<V>)> {
        Seq::new(self.options@.len(), |i: int| (self.options@[i].0@, self.options@[i].1@))
    }

    /// The names of the options, in ascending order.
    pub closed spec fn names(&self) -> Seq<Seq<char>> {
        names_of(self.entries())
    }

    /// The options are kept in ascending order of their names, so that no
    /// two share a name, and each option is well formed.
    pub closed spec fn wf(&self) -> bool {
        list_wf(self.entries())
    }

    /// What being well formed means for the options by name: each is well
    /// formed, and `names` lists each of them once, in ascending order.
    pub proof fn lemma_wf(&self)
        requires
            self.wf(),
        ensures
            options_wf(self@),
            names_ascend(self.names()),
            self.names().no_duplicates(),
            forall|name: Seq<char>| self@.contains_key(name) <==> self.names().contains(name),
    {
        let entries = self.entries();
        let names = self.names();
        assert forall|i: int, j: int| 0 <= i < j < names.len() implies text_before(
            #[trigger] names[i],
            #[trigger] names[j],
        ) by {
            assert(text_before(entries[i].0, entries[j].0));
        }
        assert forall|name: Seq<char>| self@.contains_key(name) implies (#[trigger] self@[name]).wf() by {
            assert(entries[listed_at(entries, name)].1.wf());
        }
        assert forall|i: int, j: int| 0 <= i < names.len() && 0 <= j < names.len() && i
            != j implies names[i] != names[j] by {
            if i < j {
                assert(entries[i].0 != entries[j].0);
            } else {
                assert(entries[j].0 != entries[i].0);
            }
        }
        assert forall|name: Seq<char>| self@.contains_key(name) <==> names.contains(name) by {
            if self@.contains_key(name) {
                let i = listed_at(entries, name);
                assert(names[i] == name);
            }
            if names.contains(name) {
                let i = choose|i: int| 0 <= i < names.len() && names[i] == name;
                assert(entries[i].0 == name);
            }
        }
    }

    /// The position of the option `opt_name`, if there is one.
    fn position(&self, opt_name: &str) -> (at: Option<usize>)
        requires
            self.wf(),
        ensures
            match at {
                Some(i) => {
                    &&& i < self.options@.len()
                    &&& self.entries()[i as int].0 == opt_name@
                    &&& self@.contains_key(opt_name@)
                    &&& self@[opt_name@] == self.entries()[i as int].1
                    &&& self.entries()[i as int].1.wf()
                },
                None => !self@.contains_key(opt_name@),
            },
    {
        let mut i: usize = 0;
        while i < self.options.len()
            invariant
                self.wf(),
                i <= self.options@.len(),
                self.options@.len() == self.entries().len(),
                forall|j: int| 0 <= j < i ==> (#[trigger] self.entries()[j]).0 != opt_name@,
            decreases self.options.len() - i,
        {
            if same_name(self.options[i].0.as_str(), opt_name) {
                proof {
                    assert(self.entries()[i as int].0 == opt_name@);
                    lemma_listed(self.entries(), i as int);
                }
                return Some(i);
            }
            i += 1;
        }
        None
    }

    /// Whether there is an option of the name `opt_name`.
    pub fn has_option(&self, opt_name: &str) -> (has: bool)
        requires
            self.wf(),
        ensures
            has == self@.contains_key(opt_name@),
    {
        self.position(opt_name).is_some()
    }

    /// The option of the name `opt_name`, if there is one.
    pub fn get_option(&self, opt_name: &str) -> (found: Option<&WiringOption<V>>)
        requires
            self.wf(),
        ensures
            match found {
                Some(option) => self@.contains_key(opt_name@) && option@ == self@[opt_name@]
                    && option@.wf(),
                None => !self@.contains_key(opt_name@),
            },
    {
        match self.position(opt_name) {
            Some(i) => Some(&self.options[i].1),
            None => None,
        }
    }

    /// The service that the option `opt_name` is wired to, whatever its
    /// type.
    pub fn get_service(&self, opt_name: &str) -> (service: Option<&V>)
        requires
            self.wf(),
        ensures
            service == (match wired_to(self@, opt_name@) {
                Some(s) => Some(&s.value),
                None => None,
            }),
    {
        match self.get_option(opt_name) {
            Some(option) => match option.service() {
                Some(service) => Some(&service.value),
                None => None,
            },
            None => None,
        }
    }

    /// The value of the wired service of the entry at `i`, for writing.
    fn slot_mut(&mut self, i: usize) -> (service: Option<&mut V>)
        requires
            i < old(self).options@.len(),
            old(self).entries()[i as int].1.wf(),
            old(self).entries()[i as int].1.current() is Some,
        ensures
            service is Some,
            *service->Some_0 == old(self).entries()[i as int].1.current()->Some_0.value,
            final(self).entries() =~~= old(self).entries().update(
                i as int,
                (
                    old(self).entries()[i as int].0,
                    old(self).entries()[i as int].1.with_value(*final(service->Some_0)),
                ),
            ),
    {
        self.options[i].1.service_mut()
    }

    /// The number of options.
    pub fn len(&self) -> (len: usize)
        ensures
            len == self.names().len(),
    {
        self.options.len()
    }

    /// The name of the option at position `i` of the ascending names.
    pub fn name_at(&self, i: usize) -> (name: &str)
        requires
            i < self.names().len(),
        ensures
            name@ == self.names()[i as int],
    {
        self.options[i].0.as_str()
    }

    /// The service that the option at position `i` of the ascending names
    /// is wired to, for writing, whatever its type. Nothing but the value of
    /// that service can change through it. Going through the positions one
    /// by one reaches every wired service once, in ascending order of the
    /// names.
    pub fn wired_mut_at(&mut self, i: usize) -> (slot: Option<&mut V>)
        requires
            old(self).wf(),
            i < old(self).names().len(),
        ensures
            match slot {
                Some(value) => {
                    let name = old(self).names()[i as int];
                    &&& wired_to(old(self)@, name) is Some
                    &&& *value == wired_to(old(self)@, name)->Some_0.value
                    &&& final(self)@ == old(self)@.insert(
                        name,
                        old(self)@[name].with_value(*final(value)),
                    )
                    &&& final(self).names() == old(self).names()
                    &&& final(self).wf()
                },
                None => wired_to(old(self)@, old(self).names()[i as int]) is None && *final(self)
                    == *old(self),
            },
    {
        proof {
            lemma_listed(self.entries(), i as int);
        }
        if self.options[i].1.service().is_some() {
            proof {
                let entries = self.entries();
                let option = entries[i as int].1;
                assert forall|v: V|
                    {
                        let now = entries.update(
                            i as int,
                            (entries[i as int].0, #[trigger] option.with_value(v)),
                        );
                        &&& list_wf(now)
                        &&& as_map(now) == as_map(entries).insert(
                            entries[i as int].0,
                            option.with_value(v),
                        )
                        &&& names_of(now) == names_of(entries)
                    } by {
                    lemma_with_value(option, v);
                    lemma_replaced(entries, i as int, option.with_value(v));
                }
            }
            self.slot_mut(i)
        } else {
            None
        }
    }

    /// The service that the option `opt_name` is wired to, for writing,
    /// whatever its type. Nothing but the value of that service can change
    /// through it.
    pub fn get_service_mut(&mut self, opt_name: &str) -> (service: Option<&mut V>)
        requires
            old(self).wf(),
        ensures
            match service {
                Some(value) => {
                    &&& wired_to(old(self)@, opt_name@) is Some
                    &&& *value == wired_to(old(self)@, opt_name@)->Some_0.value
                    &&& final(self)@ == old(self)@.insert(
                        opt_name@,
                        old(self)@[opt_name@].with_value(*final(value)),
                    )
                    &&& final(self).names() == old(self).names()
                    &&& final(self).wf()
                },
                None => wired_to(old(self)@, opt_name@) is None && *final(self) == *old(self),
            },
    {
        match self.position(opt_name) {
            Some(i) => self.wired_mut_at(i),
            None => None,
        }
    }

    /// The place at which an option of the new name `name` goes.
    fn place(&self, name: &str) -> (p: usize)
        requires
            self.wf(),
            !self@.contains_key(name@),
        ensures
            p <= self.options@.len(),
            is_place_of(self.names(), name@, p as int),
    {
        let mut i: usize = 0;
        while i < self.options.len()
            invariant
                self.wf(),
                !self@.contains_key(name@),
                i <= self.options@.len(),
                self.options@.len() == self.entries().len(),
                forall|j: int| 0 <= j < i ==> text_before((#[trigger] self.entries()[j]).0, name@),
            decreases self.options.len() - i,
        {
            if !name_before(self.options[i].0.as_str(), name) {
                proof {
                    let entries = self.entries();
                    let here = entries[i as int].0;
                    lemma_listed(entries, i as int);
                    assert(here != name@);
                    lemma_text_order(name@, here, here);
                    assert forall|j: int| i <= j < entries.len() implies text_before(
                        name@,
                        (#[trigger] entries[j]).0,
                    ) by {
                        if j > i {
                            assert(text_before(entries[i as int].0, entries[j].0));
                            lemma_text_order(name@, here, entries[j].0);
                        }
                    }
                }
                return i;
            }
            i += 1;
        }
        i
    }

    /// The service of the type that `svc` describes.
    pub fn get(&self, svc: &ServiceReflect) -> (r: Result<&V, GetSerectError<'static>>)
        requires
            self.wf(),
        ensures
            r == (match lookup(self@, *svc) {
                Ok(value) => Ok::<&V, GetSerectError<'static>>(&value),
                Err(err) => Err(err),
            }),
    {
        let name: &'static str = svc.option_name;
        match self.get_option(name) {
            None => Err(GetSerectError::NotFound(name)),
            Some(option) => match option {
                WiringOption::Single(service) => {
                    if service.tag == svc.tag {
                        Ok(&service.value)
                    } else {
                        Err(GetSerectError::type_mismatch(svc, service.tag))
                    }
                },
                WiringOption::Multi { .. } => match option.service() {
                    None => Err(GetSerectError::MissingWiring(name)),
                    Some(service) => {
                        if service.tag == svc.tag {
                            Ok(&service.value)
                        } else {
                            Err(GetSerectError::NotFound(name))
                        }
                    },
                },
            },
        }
    }

    /// The service of the type that `svc` describes, for writing. Nothing
    /// but the value of that service can change through it.
    pub fn get_mut(&mut self, svc: &ServiceReflect) -> (r: Result<&mut V, GetSerectError<'static>>)
        requires
            old(self).wf(),
        ensures
            match r {
                Ok(value) => {
                    &&& lookup(old(self)@, *svc) == Ok::<V, GetSerectError<'static>>(*value)
                    &&& final(self)@ == old(self)@.insert(
                        svc.option_name@,
                        old(self)@[svc.option_name@].with_value(*final(value)),
                    )
                    &&& final(self).names() == old(self).names()
                    &&& final(self).wf()
                },
                Err(err) => lookup(old(self)@, *svc) == Err::<V, GetSerectError<'static>>(err)
                    && *final(self) == *old(self),
            },
    {
        match self.get(svc) {
            Ok(_) => match self.get_service_mut(svc.option_name) {
                Some(value) => Ok(value),
                None => Err(GetSerectError::NotFound(svc.option_name)),
            },
            Err(err) => Err(err),
        }
    }

    /// The wired services, each with the name of its option, in ascending
    /// order of the names. An option that is not wired is left out.
    pub fn iter<'a>(&'a self) -> (wired: Vec<(&'a str, &'a V)>)
        requires
            self.wf(),
        ensures
            wired@.len() == wired_among(self.names(), self@, self.names().len() as int).len(),
            forall|i: int|
                0 <= i < wired@.len() ==> (#[trigger] wired@[i]).0@ == wired_among(
                    self.names(),
                    self@,
                    self.names().len() as int,
                )[i].0 && *wired@[i].1 == wired_among(
                    self.names(),
                    self@,
                    self.names().len() as int,
                )[i].1,
            forall|i: int, j: int|
                0 <= i < j < wired@.len() ==> text_before(
                    (#[trigger] wired@[i]).0@,
                    (#[trigger] wired@[j]).0@,
                ),
    {
        let mut wired: Vec<(&'a str, &'a V)> = Vec::new();
        let mut i: usize = 0;
        while i < self.options.len()
            invariant
                self.wf(),
                i <= self.options@.len(),
                self.options@.len() == self.entries().len(),
                self.names().len() == self.entries().len(),
                wired@.len() == wired_among(self.names(), self@, i as int).len(),
                forall|j: int|
                    0 <= j < wired@.len() ==> (#[trigger] wired@[j]).0@ == wired_among(
                        self.names(),
                        self@,
                        i as int,
                    )[j].0 && *wired@[j].1 == wired_among(self.names(), self@, i as int)[j].1,
                forall|j: int, t: int|
                    0 <= j < wired@.len() && i <= t < self.entries().len() ==> text_before(
                        (#[trigger] wired@[j]).0@,
                        (#[trigger] self.entries()[t]).0,
                    ),
                forall|j: int, k: int|
                    0 <= j < k < wired@.len() ==> text_before(
                        (#[trigger] wired@[j]).0@,
                        (#[trigger] wired@[k]).0@,
                    ),
            decreases self.options.len() - i,
        {
            proof {
                assert(self.entries()[i as int].1.wf());
                lemma_wired_among(self.entries(), i + 1);
            }
            match self.options[i].1.service() {
                Some(service) => {
                    wired.push((self.options[i].0.as_str(), &service.value));
                },
                None => {},
            }
            i += 1;
        }
        wired
    }
}

/// Sets a register up: adds options and alternatives, and wires them.
pub struct ServiceRegister<V> {
    services: ServiceMap<V>,
}

impl<V> View for ServiceRegister<V> {
    type V = Map<Seq<char>, OptionModel<V>>;

    closed spec fn view(&self) -> Map<Seq<char>, OptionModel<V>> {
        self.services@
    }
}

impl<V> ServiceRegister<V> {
    /// The names of the options, in ascending order.
    pub closed spec fn names(&self) -> Seq<Seq<char>> {
        self.services.names()
    }

    /// The options are kept in ascending order of their names, so that no
    /// two share a name, and each option is well formed.
    pub closed spec fn wf(&self) -> bool {
        self.services.wf()
    }

    /// What being well formed means for the options by name: each is well
    /// formed, and `names` lists each of them once, in ascending order.
    pub proof fn lemma_wf(&self)
        requires
            self.wf(),
        ensures
            options_wf(self@),
            names_ascend(self.names()),
            self.names().no_duplicates(),
            forall|name: Seq<char>| self@.contains_key(name) <==> self.names().contains(name),
    {
        self.services.lemma_wf();
    }

    pub fn new() -> (register: Self)
        ensures
            register.wf(),
            register@ == Map::<Seq<char>, OptionModel<V>>::empty(),
            register.names() == Seq::<Seq<char>>::empty(),
    {
        let register = ServiceRegister { services: ServiceMap { options: Vec::new() } };
        assert(register@ =~= Map::<Seq<char>, OptionModel<V>>::empty());
        assert(register.names() =~= Seq::<Seq<char>>::empty());
        register
    }

    /// The options.
    pub fn services(&self) -> (services: &ServiceMap<V>)
        ensures
            services@ == self@,
            services.names() == self.names(),
            services.wf() == self.wf(),
    {
        &self.services
    }

    /// The options, for writing.
    pub fn services_mut(&mut self) -> (services: &mut ServiceMap<V>)
        ensures
            services@ == old(self)@,
            services.names() == old(self).names(),
            services.wf() == old(self).wf(),
            final(self)@ == final(services)@,
            final(self).names() == final(services).names(),
            final(self).wf() == final(services).wf(),
    {
        &mut self.services
    }

    /// The options, without the register.
    pub fn into_services(self) -> (services: ServiceMap<V>)
        ensures
            services@ == self@,
            services.names() == self.names(),
            services.wf() == self.wf(),
    {
        self.services
    }

    /// Adds an option without alternatives, wired to nothing, at the place
    /// that the ascending order of the names gives it.
    pub fn add_option(&mut self, name: String)
        requires
            old(self).wf(),
            !old(self)@.contains_key(name@),
        ensures
            final(self).wf(),
            final(self)@ == old(self)@.insert(name@, OptionModel::<V>::fresh()),
            is_place_of(old(self).names(), name@, place_of(old(self).names(), name@)),
            final(self).names() == old(self).names().insert(
                place_of(old(self).names(), name@),
                name@,
            ),
    {
        let p = self.services.place(name.as_str());
        proof {
            lemma_inserted(self.services.entries(), p as int, name@, OptionModel::<V>::fresh());
            lemma_place_unique(self.names(), name@, p as int);
        }
        self.services.options.insert(p, (name, WiringOption::new()));
        assert(self.services.entries() =~= old(self).services.entries().insert(
            p as int,
            (name@, OptionModel::<V>::fresh()),
        ));
    }

    /// Adds the alternative `alt_name` to the option `opt_name`. What the
    /// option is wired to does not change.
    pub fn add_alternative(&mut self, opt_name: &str, alt_name: String, service: ServiceHandle<V>)
        requires
            old(self).wf(),
            old(self)@.contains_key(opt_name@),
            old(self)@[opt_name@] is Multi,
            !old(self)@[opt_name@].has(alt_name@),
        ensures
            final(self).wf(),
            final(self)@ == old(self)@.insert(
                opt_name@,
                old(self)@[opt_name@].add(alt_name@, service),
            ),
            final(self).names() == old(self).names(),
    {
        match self.services.position(opt_name) {
            Some(i) => {
                let ghost entries = self.services.entries();
                let ghost option = entries[i as int].1.add(alt_name@, service);
                self.services.options[i].1.add_alternative(alt_name, service);
                proof {
                    lemma_replaced(entries, i as int, option);
                    assert(self.services.entries() =~= entries.update(
                        i as int,
                        (entries[i as int].0, option),
                    ));
                }
            },
            None => {},
        }
    }

    /// Wires the option `opt_name` to its alternative `alt_name`. This can
    /// be done at any time and any number of times.
    pub fn wire_alternative(&mut self, opt_name: &str, alt_name: &str)
        requires
            old(self).wf(),
            old(self)@.contains_key(opt_name@),
            old(self)@[opt_name@].has(alt_name@),
        ensures
            final(self).wf(),
            final(self)@ == wire_one(old(self)@, opt_name@, alt_name@),
            final(self).names() == old(self).names(),
    {
        match self.services.position(opt_name) {
            Some(i) => {
                let ghost entries = self.services.entries();
                let ghost option = entries[i as int].1.wire(alt_name@);
                self.services.options[i].1.wire_alternative(alt_name);
                proof {
                    lemma_replaced(entries, i as int, option);
                    assert(self.services.entries() =~= entries.update(
                        i as int,
                        (entries[i as int].0, option),
                    ));
                }
            },
            None => {},
        }
    }

    /// Adds an option that is always wired to `service`, at the place that
    /// the ascending order of the names gives it.
    pub fn add_single(&mut self, name: String, service: ServiceHandle<V>)
        requires
            old(self).wf(),
            !old(self)@.contains_key(name@),
        ensures
            final(self).wf(),
            final(self)@ == old(self)@.insert(name@, OptionModel::Single(service)),
            is_place_of(old(self).names(), name@, place_of(old(self).names(), name@)),
            final(self).names() == old(self).names().insert(
                place_of(old(self).names(), name@),
                name@,
            ),
    {
        let p = self.services.place(name.as_str());
        proof {
            lemma_inserted(self.services.entries(), p as int, name@, OptionModel::Single(service));
            lemma_place_unique(self.names(), name@, p as int);
        }
        self.services.options.insert(p, (name, WiringOption::Single(service)));
        assert(self.services.entries() =~= old(self).services.entries().insert(
            p as int,
            (name@, OptionModel::Single(service)),
        ));
    }
}

} // verus!
