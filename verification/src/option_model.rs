//! The model of the register: what an option is, what wiring does to it,
//! and what a read of the options by name gives.
use vstd::prelude::*;
use crate::register::GetSerectError;
use crate::register::ServiceReflect;
use crate::service::ServiceHandle;

verus! {

/// What an option is: its alternatives by name, in the order in which they
/// were added, and the position of the one that is wired; or its single
/// service.
#[verifier::ext_equal]
pub enum OptionModel<V> {
    Multi { wired: Option<int>, alternatives: Seq<(Seq<char>, ServiceHandle<V>)> },
    Single(ServiceHandle<V>),
}

impl<V> OptionModel<V> {
    /// An option without alternatives, wired to nothing.
    pub open spec fn fresh() -> OptionModel<V> {
        OptionModel::Multi { wired: None, alternatives: Seq::empty() }
    }

    /// No two alternatives share a name, and what is wired is one of the
    /// alternatives.
    pub open spec fn wf(self) -> bool {
        match self {
            OptionModel::Multi { wired, alternatives } => {
                &&& wired matches Some(i) ==> 0 <= i < alternatives.len()
                &&& forall|i: int, j: int|
                    0 <= i < j < alternatives.len() ==> (#[trigger] alternatives[i]).0 != (
                    #[trigger] alternatives[j]).0
            },
            OptionModel::Single(_) => true,
        }
    }

    /// Whether the option has an alternative of the name `name`.
    pub open spec fn has(self, name: Seq<char>) -> bool {
        match self {
            OptionModel::Multi { alternatives, .. } => exists|i: int|
                0 <= i < alternatives.len() && (#[trigger] alternatives[i]).0 == name,
            OptionModel::Single(_) => false,
        }
    }

    /// The position of the alternative `name`, where the option has it.
    pub open spec fn index_of(self, name: Seq<char>) -> int {
        let alternatives = self->alternatives;
        choose|i: int| 0 <= i < alternatives.len() && (#[trigger] alternatives[i]).0 == name
    }

    /// The service that the option is wired to, if it is wired.
    pub open spec fn current(self) -> Option<ServiceHandle<V>> {
        match self {
            OptionModel::Multi { wired, alternatives } => match wired {
                Some(i) => Some(alternatives[i].1),
                None => None,
            },
            OptionModel::Single(service) => Some(service),
        }
    }

    /// The option with one more alternative. What is wired stays.
    pub open spec fn add(self, name: Seq<char>, service: ServiceHandle<V>) -> OptionModel<V> {
        match self {
            OptionModel::Multi { wired, alternatives } => OptionModel::Multi {
                wired,
                alternatives: alternatives.push((name, service)),
            },
            OptionModel::Single(s) => OptionModel::Single(s),
        }
    }

    /// The option wired to its alternative `name`. The alternatives stay.
    pub open spec fn wire(self, name: Seq<char>) -> OptionModel<V> {
        match self {
            OptionModel::Multi { wired, alternatives } => OptionModel::Multi {
                wired: Some(self.index_of(name)),
                alternatives,
            },
            OptionModel::Single(s) => OptionModel::Single(s),
        }
    }

    /// The option with `value` in place of the value of the service it is
    /// wired to. The tag of that service stays, and so does everything else.
    pub open spec fn with_value(self, value: V) -> OptionModel<V> {
        match self {
            OptionModel::Multi { wired, alternatives } => match wired {
                Some(i) => OptionModel::Multi {
                    wired,
                    alternatives: alternatives.update(
                        i,
                        (alternatives[i].0, ServiceHandle { tag: alternatives[i].1.tag, value }),
                    ),
                },
                None => self,
            },
            OptionModel::Single(s) => OptionModel::Single(ServiceHandle { tag: s.tag, value }),
        }
    }
}

/// Each option is well formed.
pub open spec fn options_wf<V>(options: Map<Seq<char>, OptionModel<V>>) -> bool {
    forall|name: Seq<char>| options.contains_key(name) ==> (#[trigger] options[name]).wf()
}

/// `options` with the option `option` wired to its alternative
/// `alternative`.
pub open spec fn wire_one<V>(
    options: Map<Seq<char>, OptionModel<V>>,
    option: Seq<char>,
    alternative: Seq<char>,
) -> Map<Seq<char>, OptionModel<V>> {
    options.insert(option, options[option].wire(alternative))
}

/// The service that the option `name` is wired to, if there is such an
/// option and it is wired.
pub open spec fn wired_to<V>(options: Map<Seq<char>, OptionModel<V>>, name: Seq<char>) -> Option<
    ServiceHandle<V>,
> {
    if options.contains_key(name) {
        options[name].current()
    } else {
        None
    }
}

/// What a typed read of the register gives.
///
/// An option that does not exist is `NotFound`. An option with alternatives
/// of which none is wired is `MissingWiring`. An option wired to an
/// alternative of another type is `NotFound` too: the service of the type
/// asked for is not the one selected. A single service of another type is a
/// `TypeMismatch`.
pub open spec fn lookup<V>(options: Map<Seq<char>, OptionModel<V>>, svc: ServiceReflect) -> Result<
    V,
    GetSerectError<'static>,
> {
    let name = svc.option_name;
    if !options.contains_key(name@) {
        Err(GetSerectError::NotFound(name))
    } else {
        match options[name@] {
            OptionModel::Single(service) => if service.tag == svc.tag {
                Ok(service.value)
            } else {
                Err(
                    GetSerectError::TypeMismatch {
                        option_name: name,
                        expected: svc.tag,
                        found: service.tag,
                    },
                )
            },
            OptionModel::Multi { wired, alternatives } => match wired {
                None => Err(GetSerectError::MissingWiring(name)),
                Some(i) => if alternatives[i].1.tag == svc.tag {
                    Ok(alternatives[i].1.value)
                } else {
                    Err(GetSerectError::NotFound(name))
                },
            },
        }
    }
}

/// The wired services among the options that the first `upto` of `names`
/// name, each with the name of its option, in the order of `names`.
pub open spec fn wired_among<V>(
    names: Seq<Seq<char>>,
    options: Map<Seq<char>, OptionModel<V>>,
    upto: int,
) -> Seq<(Seq<char>, V)>
    decreases upto,
{
    if upto <= 0 {
        Seq::empty()
    } else {
        let before = wired_among(names, options, upto - 1);
        match options[names[upto - 1]].current() {
            Some(service) => before.push((names[upto - 1], service.value)),
            None => before,
        }
    }
}

/// Wiring selects: an option that was wired to an alternative is wired to
/// the service of that alternative, and is still well formed.
pub proof fn lemma_wire_selects<V>(option: OptionModel<V>, name: Seq<char>)
    requires
        option.wf(),
        option.has(name),
    ensures
        option.wire(name).wf(),
        0 <= option.index_of(name) < option->alternatives.len(),
        option->alternatives[option.index_of(name)].0 == name,
        option.wire(name).current() == Some(option->alternatives[option.index_of(name)].1),
        forall|other: Seq<char>| option.wire(name).has(other) == option.has(other),
{
}

/// The alternative found at `i` is the alternative of its name.
pub proof fn lemma_alternative_at<V>(option: OptionModel<V>, i: int)
    requires
        option.wf(),
        option is Multi,
        0 <= i < option->alternatives.len(),
    ensures
        option.has(option->alternatives[i].0),
        option.index_of(option->alternatives[i].0) == i,
{
    let alternatives = option->alternatives;
    let c = option.index_of(alternatives[i].0);
    if c < i {
        assert(alternatives[c].0 != alternatives[i].0);
    }
    if i < c {
        assert(alternatives[i].0 != alternatives[c].0);
    }
}

/// The last wiring wins, and wiring an option to what it is wired to is no
/// change: wiring to `first` and then to `second` is wiring to `second`.
pub proof fn lemma_wire_twice<V>(option: OptionModel<V>, first: Seq<char>, second: Seq<char>)
    requires
        option.wf(),
        option.has(first),
        option.has(second),
    ensures
        option.wire(first).wire(second) == option.wire(second),
        option.wire(second).wire(second) == option.wire(second),
{
    assert(option.wire(first)->alternatives == option->alternatives);
    assert(option.wire(first).index_of(second) == option.index_of(second));
    assert(option.wire(second).index_of(second) == option.index_of(second));
}

/// Adding an alternative wires nothing: the option is wired to what it was
/// wired to before, and is still well formed if the name is new.
pub proof fn lemma_add_keeps_wiring<V>(
    option: OptionModel<V>,
    name: Seq<char>,
    service: ServiceHandle<V>,
)
    requires
        option.wf(),
        !option.has(name),
    ensures
        option.add(name, service).current() == option.current(),
        option.add(name, service).wf(),
{
    if option is Multi {
        let before = option->alternatives;
        let now = option.add(name, service)->alternatives;
        assert forall|i: int, j: int| 0 <= i < j < now.len() implies (#[trigger] now[i]).0 != (
        #[trigger] now[j]).0 by {
            if j < before.len() {
                assert(before[i].0 != before[j].0);
            } else {
                assert(before[i].0 != name);
            }
        }
    }
}

/// Writing the value of the wired service keeps the option well formed,
/// and changes neither what is wired nor any name.
pub proof fn lemma_with_value<V>(option: OptionModel<V>, value: V)
    requires
        option.wf(),
    ensures
        option.with_value(value).wf(),
        forall|name: Seq<char>| option.with_value(value).has(name) == option.has(name),
{
    if option is Multi && option->wired is Some {
        let before = option->alternatives;
        let now = option.with_value(value)->alternatives;
        assert forall|i: int, j: int| 0 <= i < j < now.len() implies (#[trigger] now[i]).0 != (
        #[trigger] now[j]).0 by {
            assert(before[i].0 != before[j].0);
        }
        assert forall|name: Seq<char>| option.with_value(value).has(name) == option.has(name) by {
            if option.with_value(value).has(name) {
                let i = choose|i: int| 0 <= i < now.len() && (#[trigger] now[i]).0 == name;
                assert(before[i].0 == name);
            }
            if option.has(name) {
                let i = choose|i: int| 0 <= i < before.len() && (#[trigger] before[i]).0 == name;
                assert(now[i].0 == name);
            }
        }
    }
}

/// An option that was just added is not wired: a read of it is
/// `MissingWiring`, whatever type is asked for.
pub proof fn lemma_fresh_option_is_unwired<V>(
    options: Map<Seq<char>, OptionModel<V>>,
    svc: ServiceReflect,
)
    ensures
        lookup(options.insert(svc.option_name@, OptionModel::<V>::fresh()), svc) == Err::<
            V,
            GetSerectError<'static>,
        >(GetSerectError::MissingWiring(svc.option_name)),
{
}

/// An option that has alternatives but is wired to none of them is
/// `MissingWiring` to every read, however many alternatives were added.
pub proof fn lemma_unwired_is_missing_wiring<V>(
    options: Map<Seq<char>, OptionModel<V>>,
    svc: ServiceReflect,
)
    requires
        options.contains_key(svc.option_name@),
        options[svc.option_name@] is Multi,
        options[svc.option_name@]->wired is None,
    ensures
        lookup(options, svc) == Err::<V, GetSerectError<'static>>(
            GetSerectError::MissingWiring(svc.option_name),
        ),
{
}

/// Switching: after an option was wired to `first` and then to `second`, a
/// read that asks for the type of `second` gives the service of `second`,
/// and a read that asks for any other type is `NotFound`.
pub proof fn lemma_switch<V>(
    options: Map<Seq<char>, OptionModel<V>>,
    svc: ServiceReflect,
    first: Seq<char>,
    second: Seq<char>,
)
    requires
        options_wf(options),
        options.contains_key(svc.option_name@),
        options[svc.option_name@].has(first),
        options[svc.option_name@].has(second),
    ensures
        ({
            let name = svc.option_name@;
            let option = options[name];
            let selected = option->alternatives[option.index_of(second)].1;
            let now = wire_one(wire_one(options, name, first), name, second);
            lookup(now, svc) == (if selected.tag == svc.tag {
                Ok::<V, GetSerectError<'static>>(selected.value)
            } else {
                Err(GetSerectError::NotFound(svc.option_name))
            })
        }),
{
    let option = options[svc.option_name@];
    lemma_wire_selects(option, first);
    lemma_wire_twice(option, first, second);
    lemma_wire_selects(option, second);
}

/// Wiring an option to the alternative it is wired to changes nothing.
pub proof fn lemma_rewire_is_no_change<V>(
    options: Map<Seq<char>, OptionModel<V>>,
    name: Seq<char>,
    alternative: Seq<char>,
)
    requires
        options_wf(options),
        options.contains_key(name),
        options[name].has(alternative),
    ensures
        wire_one(wire_one(options, name, alternative), name, alternative) == wire_one(
            options,
            name,
            alternative,
        ),
{
    lemma_wire_twice(options[name], alternative, alternative);
    assert(wire_one(wire_one(options, name, alternative), name, alternative) =~= wire_one(
        options,
        name,
        alternative,
    ));
}

} // verus!
