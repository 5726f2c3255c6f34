//! The analyzer dispatcher's decision core: the symbol-to-controller
//! map and the transitions the command and stream loops drive it
//! through. The loop itself — waiting on queues, subscribing over the
//! wire, logging — is plumbing around these transitions; each action the
//! caller must perform is handed back as a value.

use vstd::prelude::*;

use crate::controller::{ctrl_wf, Controller};

verus! {

/// A control command for the analyzer.
pub enum AnalyzerCmd {
    Publish,
    ReInitialize(Box<Controller>),
    Remove(String),
    SetFavorite(String, bool),
}

/// An outward action the caller performs after a transition.
#[derive(Debug)]
pub enum Action {
    UpdateSymbols,
    SubCharts(String),
    SubTick(String),
    UnsubCharts(String),
    UnsubTick(String),
    UnknownSymbol(String),
}

/// The dispatcher state: the controllers, one per symbol, and whether
/// level-one tick data is subscribed for them.
pub struct Dispatcher {
    pub controllers: Vec<Controller>,
    pub use_tick_data: bool,
}

/// Every controller healthy, no two for the same symbol.
pub open spec fn disp_wf(d: Dispatcher) -> bool {
    &&& forall|i: int| 0 <= i < d.controllers@.len() ==> ctrl_wf(#[trigger] d.controllers@[i])
    &&& forall|i: int, j: int|
        0 <= i < j < d.controllers@.len() ==> d.controllers@[i].symbol@
            != d.controllers@[j].symbol@
}

/// The position of the controller owning a symbol, if any.
pub open spec fn find_ctrl(cs: Seq<Controller>, symbol: Seq<char>) -> Option<int>
    decreases cs.len(),
{
    if cs.len() == 0 {
        None
    } else if cs[0].symbol@ == symbol {
        Some(0)
    } else {
        match find_ctrl(cs.skip(1), symbol) {
            Option::None => None,
            Option::Some(j) => Some(j + 1),
        }
    }
}

impl Dispatcher {
    /// Look up the controller for a symbol. Stream events for symbols
    /// with no controller are dropped by the caller.
    pub fn find_controller(&self, symbol: &str) -> (r: Option<usize>)
        ensures
            match find_ctrl(self.controllers@, symbol@) {
                Option::None => r is None,
                Option::Some(j) => r == Some(j as usize),
            },
    {
        let owned = symbol.to_owned();
        let n = self.controllers.len();
        let mut j: usize = 0;
        proof {
            assert(self.controllers@.skip(0) =~= self.controllers@);
        }
        while j < n
            invariant
                0 <= j <= n,
                n == self.controllers@.len(),
                owned@ == symbol@,
                find_ctrl(self.controllers@, symbol@) == match find_ctrl(
                    self.controllers@.skip(j as int),
                    symbol@,
                ) {
                    Option::None => None::<int>,
                    Option::Some(k) => Some(k + j),
                },
            decreases n - j,
        {
            proof {
                assert(self.controllers@.skip(j as int)[0] == self.controllers@[j as int]);
                assert(self.controllers@.skip(j as int).skip(1) =~= self.controllers@.skip(j + 1));
            }
            if self.controllers[j].symbol.eq(&owned) {
                return Some(j);
            }
            j = j + 1;
        }
        proof {
            assert(self.controllers@.skip(n as int) =~= Seq::<Controller>::empty());
        }
        None
    }

    /// Replace the controller for a symbol, or adopt a first one; the
    /// caller re-subscribes the chart stream, and the tick stream when
    /// tick data is on.
    pub fn reinitialize(&mut self, ctrl: Controller) -> (actions: Vec<Action>)
        requires
            disp_wf(*old(self)),
            ctrl_wf(ctrl),
        ensures
            disp_wf(*final(self)),
            final(self).use_tick_data == old(self).use_tick_data,
            match find_ctrl(old(self).controllers@, ctrl.symbol@) {
                Option::None => final(self).controllers@.len() == old(self).controllers@.len() + 1
                    && final(self).controllers@.last() == ctrl,
                Option::Some(j) => final(self).controllers@.len() == old(
                    self,
                ).controllers@.len() && final(self).controllers@[j] == ctrl,
            },
            actions@.len() == (if old(self).use_tick_data {
                2int
            } else {
                1int
            }),
            old(self).use_tick_data ==> (actions@[0] matches Action::SubTick(s) && s@
                == ctrl.symbol@),
            (actions@.last() matches Action::SubCharts(s) && s@ == ctrl.symbol@),
    {
        let ghost cs0 = self.controllers@;
        let symbol_copy = ctrl.symbol.clone();
        let n = self.controllers.len();
        let mut j: usize = 0;
        let mut found: Option<usize> = None;
        proof {
            assert(self.controllers@.skip(0) =~= self.controllers@);
        }
        while j < n && found.is_none()
            invariant
                0 <= j <= n,
                n == self.controllers@.len(),
                self.controllers@ == cs0,
                self.use_tick_data == old(self).use_tick_data,
                symbol_copy@ == ctrl.symbol@,
                found is None ==> find_ctrl(cs0, ctrl.symbol@) == match find_ctrl(
                    cs0.skip(j as int),
                    ctrl.symbol@,
                ) {
                    Option::None => None::<int>,
                    Option::Some(k) => Some(k + j),
                },
                found matches Some(f) ==> find_ctrl(cs0, ctrl.symbol@) == Some(f as int) && f < n,
            decreases n - j + (if found is None {
                1int
            } else {
                0int
            }),
        {
            proof {
                assert(cs0.skip(j as int)[0] == cs0[j as int]);
                assert(cs0.skip(j as int).skip(1) =~= cs0.skip(j + 1));
            }
            if self.controllers[j].symbol.eq(&symbol_copy) {
                found = Some(j);
            } else {
                j = j + 1;
            }
        }
        proof {
            if found is None {
                assert(j == n);
                assert(cs0.skip(n as int) =~= Seq::<Controller>::empty());
            }
        }
        match found {
            Option::Some(f) => {
                self.controllers.set(f, ctrl);
                proof {
                    lemma_find_ctrl_correct(cs0, ctrl.symbol@);
                    assert(forall|m: int|
                        0 <= m < cs0.len() && m != f ==> #[trigger] self.controllers@[m]
                            == cs0[m]);
                    assert(self.controllers@[f as int].symbol@ == cs0[f as int].symbol@);
                    assert forall|i1: int, i2: int|
                        0 <= i1 < i2 < self.controllers@.len() implies self.controllers@[i1].symbol@
                        != self.controllers@[i2].symbol@ by {
                        assert(cs0[i1].symbol@ != cs0[i2].symbol@);
                    }
                }
            },
            Option::None => {
                self.controllers.push(ctrl);
                proof {
                    assert(forall|m: int|
                        0 <= m < cs0.len() ==> #[trigger] self.controllers@[m] == cs0[m]);
                    assert forall|i1: int, i2: int|
                        0 <= i1 < i2 < self.controllers@.len() implies self.controllers@[i1].symbol@
                        != self.controllers@[i2].symbol@ by {
                        if i2 < self.controllers@.len() - 1 {
                            assert(cs0[i1].symbol@ != cs0[i2].symbol@);
                        } else {
                            lemma_find_ctrl_absent(cs0, self.controllers@[i2].symbol@);
                        }
                    }
                }
            },
        }
        let mut actions: Vec<Action> = Vec::new();
        if self.use_tick_data {
            actions.push(Action::SubTick(symbol_copy.clone()));
        }
        actions.push(Action::SubCharts(symbol_copy));
        actions
    }

    /// Drop the controller for a symbol; the caller unsubscribes its
    /// streams and announces the new symbol set. A missing symbol is
    /// reported, not an error.
    pub fn remove(&mut self, symbol: &str) -> (actions: Vec<Action>)
        requires
            disp_wf(*old(self)),
        ensures
            disp_wf(*final(self)),
            final(self).use_tick_data == old(self).use_tick_data,
            match find_ctrl(old(self).controllers@, symbol@) {
                Option::None => final(self).controllers@ == old(self).controllers@,
                Option::Some(j) => final(self).controllers@ == old(self).controllers@.remove(j),
            },
            (actions@.last() matches Action::UpdateSymbols),
            find_ctrl(old(self).controllers@, symbol@) is Some ==> ({
                &&& actions@.len() == (if old(self).use_tick_data {
                    3int
                } else {
                    2int
                })
                &&& (old(self).use_tick_data ==> (actions@[0] matches Action::UnsubTick(s) && s@
                    == symbol@))
                &&& (actions@[actions@.len() - 2] matches Action::UnsubCharts(s) && s@ == symbol@)
            }),
            find_ctrl(old(self).controllers@, symbol@) is None ==> actions@.len() == 2 && (
            actions@[0] matches Action::UnknownSymbol(s) && s@ == symbol@),
    {
        let ghost cs0 = self.controllers@;
        let n_now = self.controllers.len();
        proof {
            assert(cs0.len() == n_now as int);
        }
        let idx = self.find_controller(symbol);
        let mut actions: Vec<Action> = Vec::new();
        match idx {
            Option::Some(i) => {
                proof {
                    lemma_find_ctrl_in_range(cs0, symbol@);
                    let jj = find_ctrl(cs0, symbol@).unwrap();
                    assert(find_ctrl(cs0, symbol@) == Some(jj));
                    assert(Some(i) == Some(jj as usize));
                    assert(i as int == jj);
                }
                self.controllers.remove(i);
                proof {
                    assert(self.controllers@ == cs0.remove(i as int));
                    cs0.remove_ensures(i as int);
                    assert(forall|m: int|
                        0 <= m < i ==> #[trigger] self.controllers@[m] == cs0[m]);
                    assert(forall|m: int|
                        i <= m < self.controllers@.len() ==> #[trigger] self.controllers@[m]
                            == cs0[m + 1]);
                }
                if self.use_tick_data {
                    actions.push(Action::UnsubTick(symbol.to_owned()));
                }
                actions.push(Action::UnsubCharts(symbol.to_owned()));
                proof {
                    assert forall|i1: int, i2: int|
                        0 <= i1 < i2 < self.controllers@.len() implies self.controllers@[i1].symbol@
                        != self.controllers@[i2].symbol@ by {
                        let a1 = if i1 < i {
                            i1
                        } else {
                            i1 + 1
                        };
                        let a2 = if i2 < i {
                            i2
                        } else {
                            i2 + 1
                        };
                        assert(self.controllers@[i1] == cs0[a1]);
                        assert(self.controllers@[i2] == cs0[a2]);
                        assert(cs0[a1].symbol@ != cs0[a2].symbol@);
                    }
                }
            },
            Option::None => {
                actions.push(Action::UnknownSymbol(symbol.to_owned()));
            },
        }
        actions.push(Action::UpdateSymbols);
        actions
    }
}

impl Dispatcher {
    /// Forward a favourite flag to the symbol's controller; a missing
    /// symbol is reported by the result and nothing changes.
    pub fn set_favorite(&mut self, symbol: &str, is_favorite: bool) -> (found: bool)
        requires
            disp_wf(*old(self)),
        ensures
            disp_wf(*final(self)),
            final(self).use_tick_data == old(self).use_tick_data,
            found == (find_ctrl(old(self).controllers@, symbol@) is Some),
            match find_ctrl(old(self).controllers@, symbol@) {
                Option::None => final(self).controllers@ == old(self).controllers@,
                Option::Some(j) => ({
                    &&& final(self).controllers@.len() == old(self).controllers@.len()
                    &&& final(self).controllers@[j].is_favorite == is_favorite
                    &&& final(self).controllers@[j].symbol == old(self).controllers@[j].symbol
                    &&& final(self).controllers@[j].candles == old(self).controllers@[j].candles
                    &&& final(self).controllers@[j].charts == old(self).controllers@[j].charts
                    &&& final(self).controllers@[j].price_levels == old(
                        self,
                    ).controllers@[j].price_levels
                    &&& forall|m: int|
                        0 <= m < old(self).controllers@.len() && m != j
                            ==> #[trigger] final(self).controllers@[m] == old(
                            self,
                        ).controllers@[m]
                }),
            },
    {
        let ghost cs0 = self.controllers@;
        let n_now = self.controllers.len();
        proof {
            assert(cs0.len() == n_now as int);
        }
        let idx = self.find_controller(symbol);
        match idx {
            Option::Some(i) => {
                proof {
                    lemma_find_ctrl_in_range(cs0, symbol@);
                    let jj = find_ctrl(cs0, symbol@).unwrap();
                    assert(find_ctrl(cs0, symbol@) == Some(jj));
                    assert(Some(i) == Some(jj as usize));
                    assert(i as int == jj);
                }
                let mut c = self.controllers.remove(i);
                proof {
                    cs0.remove_ensures(i as int);
                    assert(c == cs0[i as int]);
                    assert(ctrl_wf(c));
                }
                c.set_favorite(is_favorite);
                self.controllers.insert(i, c);
                proof {
                    cs0.remove_ensures(i as int);
                    assert forall|m: int|
                        0 <= m < cs0.len() && m != i implies #[trigger] self.controllers@[m]
                        == cs0[m] by {
                        if m < i {
                            assert(self.controllers@[m] == cs0.remove(i as int)[m]);
                        } else {
                            assert(self.controllers@[m] == cs0.remove(i as int)[m - 1]);
                        }
                    }
                    assert forall|i1: int, i2: int|
                        0 <= i1 < i2 < self.controllers@.len() implies self.controllers@[i1].symbol@
                        != self.controllers@[i2].symbol@ by {
                        assert(cs0[i1].symbol@ != cs0[i2].symbol@);
                    }
                }
                true
            },
            Option::None => false,
        }
    }
}

/// A symbol that differs from every controller's is absent.
proof fn lemma_find_ctrl_absent(cs: Seq<Controller>, symbol: Seq<char>)
    requires
        find_ctrl(cs, symbol) is None,
    ensures
        forall|j: int| 0 <= j < cs.len() ==> (#[trigger] cs[j]).symbol@ != symbol,
    decreases cs.len(),
{
    if cs.len() > 0 {
        assert(forall|j: int| 0 <= j < cs.len() - 1 ==> #[trigger] cs.skip(1)[j] == cs[j + 1]);
        lemma_find_ctrl_absent(cs.skip(1), symbol);
        assert forall|j: int| 0 <= j < cs.len() implies (#[trigger] cs[j]).symbol@ != symbol by {
            if j >= 1 {
                assert(cs[j] == cs.skip(1)[j - 1]);
            }
        }
    }
}

/// A found controller owns the symbol and lies within the map.
proof fn lemma_find_ctrl_correct(cs: Seq<Controller>, symbol: Seq<char>)
    requires
        find_ctrl(cs, symbol) is Some,
    ensures
        0 <= find_ctrl(cs, symbol).unwrap() < cs.len(),
        cs[find_ctrl(cs, symbol).unwrap()].symbol@ == symbol,
    decreases cs.len(),
{
    if cs.len() > 0 && cs[0].symbol@ != symbol {
        assert(forall|j: int| 0 <= j < cs.len() - 1 ==> #[trigger] cs.skip(1)[j] == cs[j + 1]);
        lemma_find_ctrl_correct(cs.skip(1), symbol);
    }
}

/// A found controller index lies within the map.
proof fn lemma_find_ctrl_in_range(cs: Seq<Controller>, symbol: Seq<char>)
    requires
        find_ctrl(cs, symbol) is Some,
    ensures
        0 <= find_ctrl(cs, symbol).unwrap() < cs.len(),
    decreases cs.len(),
{
    if cs.len() > 0 && cs[0].symbol@ != symbol {
        assert(forall|j: int| 0 <= j < cs.len() - 1 ==> #[trigger] cs.skip(1)[j] == cs[j + 1]);
        lemma_find_ctrl_in_range(cs.skip(1), symbol);
    }
}

} // verus!
