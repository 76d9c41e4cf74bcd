//! A saved wiring: for each option, the name of the alternative to wire.
use vstd::prelude::*;
use crate::names::same_name;
use crate::option_model::OptionModel;
use crate::option_model::lemma_wire_selects;
use crate::option_model::options_wf;
use crate::option_model::wire_one;
use crate::register::ServiceRegister;

verus! {

/// `options` after the first `upto` of `pairs` were wired, one after the
/// other.
pub open spec fn wire_all<V>(
    options: Map<Seq<char>, OptionModel<V>>,
    pairs: Seq<(Seq<char>, Seq<char>)>,
    upto: int,
) -> Map<Seq<char>, OptionModel<V>>
    decreases upto,
{
    if upto <= 0 {
        options
    } else {
        wire_one(wire_all(options, pairs, upto - 1), pairs[upto - 1].0, pairs[upto - 1].1)
    }
}

/// Whether each of `pairs` names an option of `options` and an alternative
/// of that option.
pub open spec fn applicable<V>(
    options: Map<Seq<char>, OptionModel<V>>,
    pairs: Seq<(Seq<char>, Seq<char>)>,
) -> bool {
    forall|i: int|
        0 <= i < pairs.len() ==> options.contains_key((#[trigger] pairs[i]).0)
            && options[pairs[i].0].has(pairs[i].1)
}

/// Wiring an option keeps the options well formed, and changes neither the
/// names of the options nor the names of their alternatives: what could be
/// wired before can be wired after.
pub proof fn lemma_wire_one<V>(
    options: Map<Seq<char>, OptionModel<V>>,
    option: Seq<char>,
    alternative: Seq<char>,
    pairs: Seq<(Seq<char>, Seq<char>)>,
)
    requires
        options_wf(options),
        options.contains_key(option),
        options[option].has(alternative),
        applicable(options, pairs),
    ensures
        options_wf(wire_one(options, option, alternative)),
        wire_one(options, option, alternative).dom() == options.dom(),
        applicable(wire_one(options, option, alternative), pairs),
{
    lemma_wire_selects(options[option], alternative);
    let now = wire_one(options, option, alternative);
    assert(now.dom() =~= options.dom());
    assert forall|i: int| 0 <= i < pairs.len() implies now.contains_key((#[trigger] pairs[i]).0)
        && now[pairs[i].0].has(pairs[i].1) by {
        assert(options.contains_key(pairs[i].0) && options[pairs[i].0].has(pairs[i].1));
    }
}

/// Whether one of `pairs` names `option`.
pub open spec fn notes(pairs: Seq<(Seq<char>, Seq<char>)>, option: Seq<char>) -> bool {
    exists|i: int| 0 <= i < pairs.len() && (#[trigger] pairs[i]).0 == option
}

/// The position of the pair that names `option`, where there is one.
pub open spec fn noted_at(pairs: Seq<(Seq<char>, Seq<char>)>, option: Seq<char>) -> int {
    choose|i: int| 0 <= i < pairs.len() && (#[trigger] pairs[i]).0 == option
}

/// `pairs` without the pair that names `option`.
pub open spec fn without_note(pairs: Seq<(Seq<char>, Seq<char>)>, option: Seq<char>) -> Seq<
    (Seq<char>, Seq<char>),
> {
    if notes(pairs, option) {
        pairs.remove(noted_at(pairs, option))
    } else {
        pairs
    }
}

/// A saved wiring: pairs of an option's name and the name of the alternative
/// that the option is to be wired to. No option occurs twice.
#[derive(Debug, Clone)]
pub struct Wiring {
    pairs: Vec<(String, String)>,
}

impl View for Wiring {
    type V = Seq<(Seq<char>, Seq<char>)>;

    closed spec fn view(&self) -> Seq<(Seq<char>, Seq<char>)> {
        Seq::new(self.pairs@.len(), |i: int| (self.pairs@[i].0@, self.pairs@[i].1@))
    }
}

impl Wiring {
    /// No option occurs twice.
    pub open spec fn wf(&self) -> bool {
        forall|i: int, j: int|
            0 <= i < j < self@.len() ==> (#[trigger] self@[i]).0 != (#[trigger] self@[j]).0
    }

    /// The wiring that wires nothing.
    pub fn new() -> (wiring: Self)
        ensures
            wiring.wf(),
            wiring@ == Seq::<(Seq<char>, Seq<char>)>::empty(),
    {
        let wiring = Wiring { pairs: Vec::new() };
        assert(wiring@ =~= Seq::<(Seq<char>, Seq<char>)>::empty());
        wiring
    }

    /// The number of options that the wiring names.
    pub fn len(&self) -> (len: usize)
        ensures
            len == self@.len(),
    {
        self.pairs.len()
    }

    /// The option and the alternative at position `i`.
    pub fn pair(&self, i: usize) -> (pair: (&str, &str))
        requires
            i < self@.len(),
        ensures
            pair.0@ == self@[i as int].0,
            pair.1@ == self@[i as int].1,
    {
        (self.pairs[i].0.as_str(), self.pairs[i].1.as_str())
    }

    /// The position of the pair that names `option`, if there is one.
    fn position(&self, option: &str) -> (at: Option<usize>)
        requires
            self.wf(),
        ensures
            match at {
                Some(i) => notes(self@, option@) && i == noted_at(self@, option@) && i
                    < self.pairs@.len(),
                None => !notes(self@, option@),
            },
    {
        let mut i: usize = 0;
        while i < self.pairs.len()
            invariant
                self.wf(),
                i <= self.pairs@.len(),
                self.pairs@.len() == self@.len(),
                forall|j: int| 0 <= j < i ==> (#[trigger] self@[j]).0 != option@,
            decreases self.pairs.len() - i,
        {
            if same_name(self.pairs[i].0.as_str(), option) {
                proof {
                    let c = noted_at(self@, option@);
                    assert(self@[i as int].0 == option@);
                    if c < i {
                        assert(self@[c].0 != self@[i as int].0);
                    }
                    if i < c {
                        assert(self@[i as int].0 != self@[c].0);
                    }
                }
                return Some(i);
            }
            i += 1;
        }
        None
    }

    /// The alternative noted for `option`, if one is.
    pub fn get(&self, option: &str) -> (alternative: Option<&str>)
        requires
            self.wf(),
        ensures
            match alternative {
                Some(name) => notes(self@, option@) && name@ == self@[noted_at(self@, option@)].1,
                None => !notes(self@, option@),
            },
    {
        match self.position(option) {
            Some(i) => Some(self.pairs[i].1.as_str()),
            None => None,
        }
    }

    /// Notes that `option` is to be wired to `alternative`. What was noted
    /// for `option` before is forgotten.
    pub fn set(&mut self, option: String, alternative: String)
        requires
            old(self).wf(),
        ensures
            final(self).wf(),
            final(self)@ == without_note(old(self)@, option@).push((option@, alternative@)),
    {
        let ghost before = self@;
        match self.position(option.as_str()) {
            Some(at) => {
                let _ = self.pairs.remove(at);
                assert(self@ =~= before.remove(at as int));
            },
            None => {},
        }
        let ghost rest = self@;
        proof {
            assert forall|j: int| 0 <= j < rest.len() implies (#[trigger] rest[j]).0 != option@ by {
                if notes(before, option@) {
                    let c = noted_at(before, option@);
                    if j < c {
                        assert(rest[j] == before[j]);
                        assert(before[j].0 != before[c].0);
                    } else {
                        assert(rest[j] == before[j + 1]);
                        assert(before[c].0 != before[j + 1].0);
                    }
                }
            }
            assert forall|a: int, b: int| 0 <= a < b < rest.len() implies (#[trigger] rest[a]).0 != (
            #[trigger] rest[b]).0 by {
                if notes(before, option@) {
                    let c = noted_at(before, option@);
                    let x = if a < c { a } else { a + 1 };
                    let y = if b < c { b } else { b + 1 };
                    assert(rest[a] == before[x]);
                    assert(rest[b] == before[y]);
                    assert(before[x].0 != before[y].0);
                } else {
                    assert(before[a].0 != before[b].0);
                }
            }
        }
        self.pairs.push((option, alternative));
        proof {
            assert(self@ =~= rest.push((option@, alternative@)));
            assert forall|a: int, b: int| 0 <= a < b < self@.len() implies (#[trigger] self@[a]).0
                != (#[trigger] self@[b]).0 by {
                if b < rest.len() {
                    assert(rest[a].0 != rest[b].0);
                } else {
                    assert(rest[a].0 != option@);
                }
            }
        }
    }

    /// Whether every pair names an option of `reg` and an alternative of
    /// that option, so that the wiring can be applied.
    pub fn applies_to<V>(&self, reg: &ServiceRegister<V>) -> (ok: bool)
        requires
            reg.wf(),
        ensures
            ok == applicable(reg@, self@),
    {
        let mut i: usize = 0;
        while i < self.pairs.len()
            invariant
                reg.wf(),
                i <= self.pairs@.len(),
                self.pairs@.len() == self@.len(),
                forall|j: int|
                    0 <= j < i ==> reg@.contains_key((#[trigger] self@[j]).0)
                        && reg@[self@[j].0].has(self@[j].1),
            decreases self.pairs.len() - i,
        {
            let fits = match reg.services().get_option(self.pairs[i].0.as_str()) {
                Some(option) => option.has_alternative(self.pairs[i].1.as_str()),
                None => false,
            };
            if !fits {
                assert(!(reg@.contains_key(self@[i as int].0) && reg@[self@[i as int].0].has(
                    self@[i as int].1,
                )));
                return false;
            }
            i += 1;
        }
        true
    }

    /// Wires each option that the wiring names to the alternative noted for
    /// it, one after the other.
    pub fn apply<V>(&self, reg: &mut ServiceRegister<V>)
        requires
            old(reg).wf(),
            applicable(old(reg)@, self@),
        ensures
            final(reg).wf(),
            final(reg)@ == wire_all(old(reg)@, self@, self@.len() as int),
            final(reg).names() == old(reg).names(),
    {
        let mut i: usize = 0;
        while i < self.pairs.len()
            invariant
                reg.wf(),
                i <= self.pairs@.len(),
                self.pairs@.len() == self@.len(),
                applicable(reg@, self@),
                reg@ == wire_all(old(reg)@, self@, i as int),
                reg.names() == old(reg).names(),
            decreases self.pairs.len() - i,
        {
            proof {
                assert(reg@.contains_key(self@[i as int].0));
                reg.lemma_wf();
                lemma_wire_one(reg@, self@[i as int].0, self@[i as int].1, self@);
            }
            reg.wire_alternative(self.pairs[i].0.as_str(), self.pairs[i].1.as_str());
            i += 1;
        }
    }
}

impl Default for Wiring {
    /// The wiring that wires nothing.
    fn default() -> (wiring: Self)
        ensures
            wiring@ == Seq::<(Seq<char>, Seq<char>)>::empty(),
    {
        Wiring::new()
    }
}

} // verus!
