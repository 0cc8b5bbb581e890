//! A deployment plan: what a run expects to receive, where the files go and
//! which steps it takes, in order.

use crate::error::ErrorKind;
use vstd::prelude::*;
use vstd::string::StringExecFns;

verus! {

/// The texts of a sequence of strings.
pub open spec fn texts(names: Seq<String>) -> Seq<Seq<char>> {
    names.map_values(|s: String| s@)
}

/// The map that a list of entries stands for: a later entry replaces an
/// earlier one with the same key.
pub open spec fn entries_map<V>(entries: Seq<(String, V)>) -> Map<Seq<char>, V>
    decreases entries.len(),
{
    if entries.len() == 0 {
        Map::empty()
    } else {
        entries_map(entries.drop_last()).insert(entries.last().0@, entries.last().1)
    }
}

/// A map from text to values. Each key has one value, the one that was
/// inserted last.
pub struct TextMap<V> {
    entries: Vec<(String, V)>,
}

impl<V> View for TextMap<V> {
    type V = Map<Seq<char>, V>;

    closed spec fn view(&self) -> Map<Seq<char>, V> {
        entries_map(self.entries@)
    }
}

impl<V> TextMap<V> {
    /// The map without any key.
    pub fn new() -> (m: Self)
        ensures
            m@ == Map::<Seq<char>, V>::empty(),
    {
        TextMap { entries: Vec::new() }
    }

    /// Gives `key` the value `value`, in place of the value it had, if any.
    pub fn insert(&mut self, key: String, value: V)
        ensures
            final(self)@ == old(self)@.insert(key@, value),
    {
        let ghost before = self.entries@;
        self.entries.push((key, value));
        assert(self.entries@.drop_last() =~= before);
    }

    /// The value of `key`, if it has one.
    pub fn get(&self, key: &String) -> (r: Option<&V>)
        ensures
            match r {
                Some(v) => self@.contains_key(key@) && self@[key@] == *v,
                None => !self@.contains_key(key@),
            },
    {
        let mut i: usize = self.entries.len();
        assert(self.entries@.take(i as int) =~= self.entries@);
        while i > 0
            invariant
                i <= self.entries@.len(),
                self@.contains_key(key@) == entries_map(self.entries@.take(i as int)).contains_key(
                    key@,
                ),
                self@.contains_key(key@) ==> self@[key@] == entries_map(
                    self.entries@.take(i as int),
                )[key@],
            decreases i,
        {
            proof {
                let front = self.entries@.take(i as int);
                assert(front.drop_last() =~= self.entries@.take(i - 1));
                assert(front.last() == self.entries@[i - 1]);
            }
            i -= 1;
            if self.entries[i].0 == *key {
                return Some(&self.entries[i].1);
            }
        }
        None
    }
}

/// What a plan expects a transfer to bring.
pub enum ExpectedFiles {
    /// This many files, whatever their names.
    Amount(usize),
    /// Files with exactly these names, in any order.
    List(Vec<String>),
}

/// A command that a plan runs.
pub struct ConfigCommand {
    /// The program.
    pub command: String,
    /// Its arguments, handed over as they stand.
    pub args: Option<Vec<String>>,
    /// Whether the run goes on when the command exits with a status other
    /// than zero.
    pub allow_failure: bool,
}

/// One step of a plan.
pub enum Step {
    /// Run a command and wait for it.
    Command(ConfigCommand),
    /// Receive a transfer and stage its files.
    ReceiveFiles,
    /// Move the staged files to where they belong.
    MoveFiles,
}

/// A plan: what it expects, where the files go, and its steps in order.
pub struct Plan {
    /// The directory in which commands run and to which files are moved; the
    /// directory of the process if none is given.
    pub working_directory: Option<String>,
    /// What a transfer has to bring.
    pub expected_files: Option<ExpectedFiles>,
    /// The names under which received files are put down, by received name;
    /// a file without an entry keeps its name.
    pub files: Option<TextMap<String>>,
    /// The steps, in the order in which they are taken.
    pub steps: Vec<Step>,
}

/// The plans that a configuration offers, by name.
pub struct Config {
    pub plans: TextMap<Plan>,
}

/// The texts of `parts` with `separator` between each two of them.
pub open spec fn joined(parts: Seq<Seq<char>>, separator: Seq<char>) -> Seq<char>
    decreases parts.len(),
{
    if parts.len() == 0 {
        Seq::empty()
    } else if parts.len() == 1 {
        parts[0]
    } else {
        joined(parts.drop_last(), separator) + separator + parts.last()
    }
}

impl ConfigCommand {
    /// The command line as it is shown: the program, then each argument after
    /// a space. A command with an empty list of arguments shows a space after
    /// the program; one without a list shows none.
    pub open spec fn line(&self) -> Seq<char> {
        match self.args {
            Some(args) => self.command@ + " "@ + joined(texts(args@), " "@),
            None => self.command@,
        }
    }
}

impl Step {
    /// What the step is shown as.
    pub open spec fn description(&self) -> Seq<char> {
        match self {
            Step::ReceiveFiles => "receive files"@,
            Step::MoveFiles => "move files"@,
            Step::Command(cc) => "run command `"@ + cc.line() + "`"@,
        }
    }

    /// A short text that says what the step does.
    pub fn describe(&self) -> (r: String)
        ensures
            r@ == self.description(),
    {
        match self {
            Step::ReceiveFiles => String::from_str("receive files"),
            Step::MoveFiles => String::from_str("move files"),
            Step::Command(cc) => {
                let mut out = String::from_str("run command `");
                out.append(cc.command.as_str());
                if let Some(args) = &cc.args {
                    out.append(" ");
                    let ghost head = out@;
                    let ghost parts = texts(args@);
                    let mut i: usize = 0;
                    while i < args.len()
                        invariant
                            i <= args.len(),
                            parts == texts(args@),
                            out@ == head + joined(parts.take(i as int), " "@),
                        decreases args.len() - i,
                    {
                        proof {
                            let next = parts.take(i + 1);
                            assert(next.drop_last() =~= parts.take(i as int));
                            assert(next.last() == args@[i as int]@);
                        }
                        if i > 0 {
                            out.append(" ");
                        }
                        out.append(args[i].as_str());
                        i += 1;
                    }
                    assert(parts.take(i as int) =~= parts);
                }
                out.append("`");
                out
            },
        }
    }
}

impl Config {
    /// The plan that the parameters of a deploy command name: the first
    /// parameter is the name. Without a parameter, or with a name that no
    /// plan has, there is nothing to do.
    pub fn select(&self, params: &Vec<String>) -> (r: Result<&Plan, ErrorKind>)
        ensures
            match r {
                Ok(plan) => params@.len() > 0 && self.plans@.contains_key(params@[0]@)
                    && self.plans@[params@[0]@] == *plan,
                Err(e) => e == ErrorKind::ConfigError && (params@.len() == 0
                    || !self.plans@.contains_key(params@[0]@)),
            },
    {
        if params.len() == 0 {
            return Err(ErrorKind::ConfigError);
        }
        match self.plans.get(&params[0]) {
            Some(plan) => Ok(plan),
            None => Err(ErrorKind::ConfigError),
        }
    }
}

} // verus!
