//! Configuration: the variables that stand for values in the definitions,
//! and what is loaded from them.

use crate::text::{count_words, replace_text, replaced, same_text, word_count};
use vstd::prelude::*;
use vstd::string::*;

pub mod api;
pub mod cloud_config;
pub mod loading;

verus! {

/// The text after every variable, in order, was replaced by its value.
pub open spec fn substitute(s: Seq<char>, vars: Seq<(Seq<char>, Seq<char>)>) -> Seq<char>
    decreases vars.len(),
{
    if vars.len() == 0 {
        s
    } else {
        replaced(substitute(s, vars.drop_last()), vars.last().0, vars.last().1)
    }
}

/// Something in which variables can stand.
pub trait ContainsVariables {
    /// Whether `after` is this value with every variable replaced by its
    /// value.
    spec fn substituted(&self, vars: Seq<(Seq<char>, Seq<char>)>, after: &Self) -> bool;

    /// Replaces every variable by its value.
    fn replace_variables(&mut self, vars: &ConfigVariables)
        ensures
            old(self).substituted(vars@, final(self)),
    ;
}

impl ContainsVariables for String {
    open spec fn substituted(&self, vars: Seq<(Seq<char>, Seq<char>)>, after: &Self) -> bool {
        after@ == substitute(self@, vars)
    }

    fn replace_variables(&mut self, vars: &ConfigVariables) {
        let entries = vars.iter();
        let mut i: usize = 0;
        assert(vars@.take(0) =~= Seq::empty());
        while i < entries.len()
            invariant
                i <= entries.len(),
                entries_view(entries@) == vars@,
                self@ == substitute(old(self)@, vars@.take(i as int)),
            decreases entries.len() - i,
        {
            proof {
                assert(vars@.take(i + 1).drop_last() =~= vars@.take(i as int));
                assert(vars@.take(i + 1).last() == (entries[i as int].0@, entries[i as int].1@));
            }
            let next = replace_text(
                self.as_str(),
                entries[i].0.placeholder(),
                entries[i].1.as_str(),
            );
            *self = next;
            i += 1;
        }
        assert(vars@.take(entries.len() as int) =~= vars@);
    }
}

impl<T: ContainsVariables> ContainsVariables for Vec<T> {
    open spec fn substituted(&self, vars: Seq<(Seq<char>, Seq<char>)>, after: &Self) -> bool {
        &&& after.len() == self.len()
        &&& forall|i: int| 0 <= i < self.len() ==> (#[trigger] self[i]).substituted(vars, &after[i])
    }

    fn replace_variables(&mut self, vars: &ConfigVariables) {
        let mut done: Vec<T> = Vec::new();
        let ghost before = self@;
        let n = self.len();
        // The items are taken from the end and put back in their order.
        while self.len() > 0
            invariant
                self.len() + done.len() == n,
                n == before.len(),
                self@ == before.take(self.len() as int),
                forall|k: int|
                    0 <= k < done.len() ==> (#[trigger] before[n - 1 - k]).substituted(
                        vars@,
                        &done[k],
                    ),
            decreases self.len(),
        {
            let mut item = self.pop().unwrap();
            item.replace_variables(vars);
            done.push(item);
            assert(self@ =~= before.take(self.len() as int));
        }
        while done.len() > 0
            invariant
                self.len() + done.len() == n,
                n == before.len(),
                forall|k: int|
                    0 <= k < done.len() ==> (#[trigger] before[n - 1 - k]).substituted(
                        vars@,
                        &done[k],
                    ),
                forall|k: int|
                    0 <= k < self.len() ==> (#[trigger] before[k]).substituted(vars@, &self[k]),
            decreases done.len(),
        {
            assert(before[n - 1 - (done.len() - 1)].substituted(vars@, &done[done.len() - 1]));
            let item = done.pop().unwrap();
            self.push(item);
        }
    }
}

impl<T: ContainsVariables> ContainsVariables for Option<T> {
    open spec fn substituted(&self, vars: Seq<(Seq<char>, Seq<char>)>, after: &Self) -> bool {
        match (self, after) {
            (Some(a), Some(b)) => a.substituted(vars, b),
            (None, None) => true,
            _ => false,
        }
    }

    fn replace_variables(&mut self, vars: &ConfigVariables) {
        match self {
            Some(s) => {
                s.replace_variables(vars);
            },
            None => {},
        }
    }
}

/// Why a name was not taken for a variable.
#[derive(Clone, Debug)]
pub enum ConfigVariableError {
    InvalidName(String),
}

impl ConfigVariableError {
    /// The name that was refused.
    pub open spec fn spec_name(&self) -> Seq<char> {
        match self {
            ConfigVariableError::InvalidName(name) => name@,
        }
    }

    /// The error in words.
    pub fn message(&self) -> (s: String)
        ensures
            s@ == "Invalid variable name - "@ + self.spec_name(),
    {
        match self {
            ConfigVariableError::InvalidName(name) => {
                let mut s = "Invalid variable name - ".to_owned();
                s.append(name.as_str());
                s
            },
        }
    }
}

/// A variable: the text that stands for a value in the definitions. It is
/// a dollar sign and the variable's name.
#[derive(Clone, Debug, PartialEq, Eq, Hash)]
pub struct ConfigVariable(String);

impl View for ConfigVariable {
    type V = Seq<char>;

    closed spec fn view(&self) -> Seq<char> {
        self.0@
    }
}

impl ConfigVariable {
    /// The variable of this name. The name is one word: it holds something
    /// that is not white space, and no white space inside it.
    pub fn new(var_name: &str) -> (r: Result<Self, ConfigVariableError>)
        ensures
            match r {
                Ok(v) => word_count(var_name@) == 1 && v@ == "$"@ + var_name@,
                Err(e) => word_count(var_name@) != 1 && e.spec_name() == var_name@,
            },
    {
        if count_words(var_name) != 1 {
            return Err(ConfigVariableError::InvalidName(var_name.to_owned()));
        }
        let mut s = "$".to_owned();
        s.append(var_name);
        Ok(Self(s))
    }

    /// The text that stands for the value.
    pub fn placeholder(&self) -> (s: &str)
        ensures
            s@ == self@,
    {
        self.0.as_str()
    }
}

/// The variables and their values, in the order in which they were given.
/// No variable occurs twice.
#[derive(Debug)]
pub struct ConfigVariables(Vec<(ConfigVariable, String)>);

/// What the entries say: for each variable, its text and its value.
pub open spec fn entries_view(entries: Seq<(ConfigVariable, String)>) -> Seq<(Seq<char>, Seq<char>)> {
    Seq::new(entries.len(), |i: int| (entries[i].0@, entries[i].1@))
}

/// No variable occurs twice.
pub open spec fn distinct_variables(vars: Seq<(Seq<char>, Seq<char>)>) -> bool {
    forall|i: int, j: int| 0 <= i < j < vars.len() ==> (#[trigger] vars[i]).0 != (#[trigger] vars[j]).0
}

/// `i` is where the variable stands.
pub open spec fn variable_at(vars: Seq<(Seq<char>, Seq<char>)>, variable: Seq<char>, i: int) -> bool {
    0 <= i < vars.len() && vars[i].0 == variable
}

/// The variables after `variable` was given `value`: in the place of its
/// old value where it had one, at the end where it had none.
pub open spec fn with_variable(
    vars: Seq<(Seq<char>, Seq<char>)>,
    variable: Seq<char>,
    value: Seq<char>,
) -> Seq<(Seq<char>, Seq<char>)> {
    if exists|i: int| variable_at(vars, variable, i) {
        vars.update(choose|i: int| variable_at(vars, variable, i), (variable, value))
    } else {
        vars.push((variable, value))
    }
}

impl View for ConfigVariables {
    type V = Seq<(Seq<char>, Seq<char>)>;

    closed spec fn view(&self) -> Seq<(Seq<char>, Seq<char>)> {
        entries_view(self.0@)
    }
}

impl ConfigVariables {
    #[verifier::type_invariant]
    spec fn once_each(&self) -> bool {
        distinct_variables(entries_view(self.0@))
    }

    /// No variables.
    pub fn new() -> (vars: Self)
        ensures
            vars@ == Seq::<(Seq<char>, Seq<char>)>::empty(),
    {
        let vars = ConfigVariables(Vec::new());
        assert(vars@ =~= Seq::empty());
        vars
    }

    /// Gives the variable a value. A value that it had before is replaced.
    pub fn insert(&mut self, variable: ConfigVariable, value: String)
        ensures
            final(self)@ == with_variable(old(self)@, variable@, value@),
            distinct_variables(final(self)@),
    {
        proof {
            use_type_invariant(&*self);
        }
        let ghost before = entries_view(self.0@);
        let mut entries: Vec<(ConfigVariable, String)> = Vec::new();
        std::mem::swap(&mut self.0, &mut entries);
        let mut i: usize = 0;
        let mut found: Option<usize> = None;
        while i < entries.len() && found.is_none()
            invariant
                i <= entries.len(),
                entries_view(entries@) == before,
                forall|j: int| 0 <= j < i && found is None ==> (#[trigger] before[j]).0 != variable@,
                found matches Some(k) ==> variable_at(before, variable@, k as int),
            decreases entries.len() - i + (if found is None { 1int } else { 0int }),
        {
            if same_text(entries[i].0.placeholder(), variable.placeholder()) {
                found = Some(i);
            } else {
                i += 1;
            }
        }
        match found {
            Some(k) => {
                proof {
                    let c = choose|c: int| variable_at(before, variable@, c);
                    if c < k {
                        assert(before[c].0 != before[k as int].0);
                    }
                    if k < c {
                        assert(before[k as int].0 != before[c].0);
                    }
                }
                entries.set(k, (variable, value));
                proof {
                    assert(entries_view(entries@) =~= before.update(
                        k as int,
                        (variable@, value@),
                    ));
                    assert forall|a: int, b: int|
                        0 <= a < b < entries.len() implies (#[trigger] entries_view(entries@)[a]).0
                        != (#[trigger] entries_view(entries@)[b]).0 by {
                        assert(before[a].0 != before[b].0);
                    }
                }
            },
            None => {
                entries.push((variable, value));
                proof {
                    assert(entries_view(entries@) =~= before.push((variable@, value@)));
                    assert forall|a: int, b: int|
                        0 <= a < b < entries.len() implies (#[trigger] entries_view(entries@)[a]).0
                        != (#[trigger] entries_view(entries@)[b]).0 by {
                        if b < before.len() {
                            assert(before[a].0 != before[b].0);
                        } else {
                            assert(before[a].0 != variable@);
                        }
                    }
                }
            },
        }
        self.0 = entries;
    }

    /// The variables and their values, in order.
    pub fn iter(&self) -> (entries: &Vec<(ConfigVariable, String)>)
        ensures
            entries_view(entries@) == self@,
            distinct_variables(self@),
    {
        proof {
            use_type_invariant(self);
        }
        &self.0
    }
}

impl Default for ConfigVariables {
    fn default() -> (vars: Self)
        ensures
            vars@ == Seq::<(Seq<char>, Seq<char>)>::empty(),
    {
        ConfigVariables::new()
    }
}

} // verus!
