//! Aliases: the `alias` builtin's arguments, the table of aliases of a
//! session, and the file that keeps the permanent ones as a JSON object.

use std::collections::HashMap;
use vstd::prelude::*;
use vstd::string::*;
use crate::text::str_eq;

verus! {

/// The error of `serde_json`.
#[verifier::external_type_specification]
#[verifier::external_body]
pub struct ExJsonError(serde_json::Error);

/// The map of name/content pairs, a later pair for a name replacing an
/// earlier one.
pub open spec fn pairs_map(v: Seq<(String, String)>) -> Map<Seq<char>, Seq<char>>
    decreases v.len(),
{
    if v.len() == 0 {
        Map::empty()
    } else {
        pairs_map(v.drop_last()).insert(v.last().0@, v.last().1@)
    }
}

/// No name occurs twice among the pairs.
pub open spec fn distinct_keys(v: Seq<(String, String)>) -> bool {
    forall|i: int, j: int| 0 <= i < j < v.len() ==> v[i].0@ != v[j].0@
}

/// What `serde_json::from_str` reads from `text` as a map from strings to
/// strings: `None` where `text` is not one JSON object of string values.
pub uninterp spec fn json_string_map(text: Seq<char>) -> Option<Map<Seq<char>, Seq<char>>>;

/// `serde_json::from_str::<HashMap<String, String>>`, its entries handed out
/// as pairs. Trusted to read `json_string_map` of the text: the pairs have
/// distinct names and make up that map, in an order that the contract leaves
/// open; an error exactly where the text is no such object.
#[verifier::external_body]
fn parse_string_map(text: &str) -> (r: Result<Vec<(String, String)>, serde_json::Error>)
    ensures
        r matches Ok(v) ==> distinct_keys(v@) && json_string_map(text@) == Some(pairs_map(v@)),
        r is Err ==> json_string_map(text@) is None,
{
    match serde_json::from_str::<HashMap<String, String>>(text) {
        Ok(m) => Ok(m.into_iter().collect()),
        Err(e) => Err(e),
    }
}

/// `serde_json::to_string` of the pairs as a `HashMap<&str, &str>`. Trusted
/// to succeed (its documentation names only a failing `Serialize` impl and
/// non-string map keys as causes of failure, and the JSON goes into a `Vec`)
/// and to write a JSON object that `serde_json::from_str` reads back as the
/// same map; the order of its members is left open.
#[verifier::external_body]
fn write_string_map(entries: &Vec<(String, String)>) -> (r: Result<String, serde_json::Error>)
    requires
        distinct_keys(entries@),
    ensures
        r is Ok,
        r matches Ok(t) ==> json_string_map(t@) == Some(pairs_map(entries@)),
{
    let m: HashMap<&str, &str> = entries.iter().map(|(k, v)| (k.as_str(), v.as_str())).collect();
    serde_json::to_string(&m)
}

/// An alias: the name, what it stands for, and whether it is kept when the
/// shell exits.
pub struct AliasEntry {
    pub name: String,
    pub content: String,
    pub permanent: bool,
}

/// The aliases of a session.
pub struct AliasTable {
    entries: Vec<AliasEntry>,
}

/// The map from names to content and permanence, a later entry for a name
/// replacing an earlier one.
pub open spec fn entries_map(s: Seq<AliasEntry>) -> Map<Seq<char>, (Seq<char>, bool)>
    decreases s.len(),
{
    if s.len() == 0 {
        Map::empty()
    } else {
        entries_map(s.drop_last()).insert(s.last().name@, (s.last().content@, s.last().permanent))
    }
}

/// No name occurs twice among the entries.
pub open spec fn distinct_names(s: Seq<AliasEntry>) -> bool {
    forall|i: int, j: int| 0 <= i < j < s.len() ==> s[i].name@ != s[j].name@
}

/// The aliases that are saved: the permanent ones, by name.
pub open spec fn saved_aliases(m: Map<Seq<char>, (Seq<char>, bool)>) -> Map<Seq<char>, Seq<char>> {
    Map::new(|k: Seq<char>| m.dom().contains(k) && m[k].1, |k: Seq<char>| m[k].0)
}

/// The aliases loaded from a saved map: all of them permanent.
pub open spec fn loaded_aliases(m: Map<Seq<char>, Seq<char>>) -> Map<Seq<char>, (Seq<char>, bool)> {
    Map::new(|k: Seq<char>| m.dom().contains(k), |k: Seq<char>| (m[k], true))
}

proof fn lemma_entries_dom(s: Seq<AliasEntry>, k: Seq<char>)
    ensures
        entries_map(s).dom().contains(k) <==> exists|i: int| 0 <= i < s.len() && #[trigger] s[i].name@ == k,
    decreases s.len(),
{
    if s.len() > 0 {
        lemma_entries_dom(s.drop_last(), k);
        if entries_map(s.drop_last()).dom().contains(k) {
            let i = choose|i: int| 0 <= i < s.drop_last().len() && #[trigger] s.drop_last()[i].name@ == k;
            assert(s[i].name@ == k);
        }
        if exists|i: int| 0 <= i < s.len() && #[trigger] s[i].name@ == k {
            let i = choose|i: int| 0 <= i < s.len() && #[trigger] s[i].name@ == k;
            if i < s.len() - 1 {
                assert(s.drop_last()[i].name@ == k);
            }
        }
    }
}

proof fn lemma_entries_value(s: Seq<AliasEntry>, i: int)
    requires
        distinct_names(s),
        0 <= i < s.len(),
    ensures
        entries_map(s)[s[i].name@] == (s[i].content@, s[i].permanent),
    decreases s.len(),
{
    if i < s.len() - 1 {
        assert(s[i].name@ != s.last().name@);
        lemma_entries_value(s.drop_last(), i);
    }
}

proof fn lemma_entries_update(s: Seq<AliasEntry>, j: int, e: AliasEntry)
    requires
        distinct_names(s),
        0 <= j < s.len(),
        s[j].name@ == e.name@,
    ensures
        entries_map(s.update(j, e)) == entries_map(s).insert(e.name@, (e.content@, e.permanent)),
    decreases s.len(),
{
    let t = s.update(j, e);
    if j == s.len() - 1 {
        assert(t.drop_last() =~= s.drop_last());
        assert(entries_map(t) =~= entries_map(s).insert(e.name@, (e.content@, e.permanent)));
    } else {
        assert(t.drop_last() =~= s.drop_last().update(j, e));
        lemma_entries_update(s.drop_last(), j, e);
        assert(s[j].name@ != s.last().name@);
        assert(entries_map(t) =~= entries_map(s).insert(e.name@, (e.content@, e.permanent)));
    }
}

proof fn lemma_pairs_dom(v: Seq<(String, String)>, k: Seq<char>)
    ensures
        pairs_map(v).dom().contains(k) <==> exists|i: int| 0 <= i < v.len() && #[trigger] v[i].0@ == k,
    decreases v.len(),
{
    if v.len() > 0 {
        lemma_pairs_dom(v.drop_last(), k);
        if pairs_map(v.drop_last()).dom().contains(k) {
            let i = choose|i: int| 0 <= i < v.drop_last().len() && #[trigger] v.drop_last()[i].0@ == k;
            assert(v[i].0@ == k);
        }
        if exists|i: int| 0 <= i < v.len() && #[trigger] v[i].0@ == k {
            let i = choose|i: int| 0 <= i < v.len() && #[trigger] v[i].0@ == k;
            if i < v.len() - 1 {
                assert(v.drop_last()[i].0@ == k);
            }
        }
    }
}

impl View for AliasTable {
    type V = Map<Seq<char>, (Seq<char>, bool)>;

    /// Each alias's name, mapped to its content and whether it is permanent.
    closed spec fn view(&self) -> Self::V {
        entries_map(self.entries@)
    }
}

impl AliasTable {
    #[verifier::type_invariant]
    spec fn names_distinct(self) -> bool {
        distinct_names(self.entries@)
    }

    /// A table without aliases.
    pub fn new() -> (t: AliasTable)
        ensures
            t@ == Map::<Seq<char>, (Seq<char>, bool)>::empty(),
    {
        AliasTable { entries: Vec::new() }
    }

    fn find(&self, name: &str) -> (r: Option<usize>)
        ensures
            r matches Some(i) ==> i < self.entries@.len() && self.entries@[i as int].name@ == name@,
            r is None ==> forall|i: int| 0 <= i < self.entries@.len() ==> self.entries@[i].name@ != name@,
    {
        let mut i: usize = 0;
        while i < self.entries.len()
            invariant
                i <= self.entries@.len(),
                forall|j: int| 0 <= j < i ==> self.entries@[j].name@ != name@,
            decreases self.entries@.len() - i,
        {
            if str_eq(self.entries[i].name.as_str(), name) {
                return Some(i);
            }
            i += 1;
        }
        None
    }

    /// Whether `name` is an alias.
    pub fn contains(&self, name: &str) -> (r: bool)
        ensures
            r == self@.dom().contains(name@),
    {
        proof {
            lemma_entries_dom(self.entries@, name@);
        }
        self.find(name).is_some()
    }

    /// What `name` stands for, where it is an alias.
    pub fn get(&self, name: &str) -> (r: Option<&String>)
        ensures
            r is Some <==> self@.dom().contains(name@),
            r matches Some(c) ==> c@ == self@[name@].0,
    {
        proof {
            use_type_invariant(self);
            lemma_entries_dom(self.entries@, name@);
        }
        match self.find(name) {
            Some(i) => {
                proof {
                    lemma_entries_value(self.entries@, i as int);
                }
                Some(&self.entries[i].content)
            },
            None => None,
        }
    }

    /// Whether `name` is a permanent alias.
    pub fn is_permanent(&self, name: &str) -> (r: bool)
        ensures
            r == (self@.dom().contains(name@) && self@[name@].1),
    {
        proof {
            use_type_invariant(self);
            lemma_entries_dom(self.entries@, name@);
        }
        match self.find(name) {
            Some(i) => {
                proof {
                    lemma_entries_value(self.entries@, i as int);
                }
                self.entries[i].permanent
            },
            None => false,
        }
    }

    /// Makes `name` stand for `content`, replacing what it stood for.
    pub fn insert(&mut self, name: String, content: String, permanent: bool)
        ensures
            final(self)@ == old(self)@.insert(name@, (content@, permanent)),
    {
        proof {
            use_type_invariant(&*self);
        }
        let entry = AliasEntry { name, content, permanent };
        match self.find(entry.name.as_str()) {
            Some(i) => {
                let ghost old_entries = self.entries@;
                proof {
                    lemma_entries_update(old_entries, i as int, entry);
                }
                let mut entries: Vec<AliasEntry> = Vec::new();
                std::mem::swap(&mut entries, &mut self.entries);
                entries.set(i, entry);
                assert(entries@ == old_entries.update(i as int, entry));
                self.entries = entries;
            },
            None => {
                let ghost old_entries = self.entries@;
                let mut entries: Vec<AliasEntry> = Vec::new();
                std::mem::swap(&mut entries, &mut self.entries);
                entries.push(entry);
                assert(entries@.drop_last() =~= old_entries);
                self.entries = entries;
            },
        }
    }

    /// The permanent aliases, as name/content pairs.
    pub fn saved_pairs(&self) -> (r: Vec<(String, String)>)
        ensures
            distinct_keys(r@),
            pairs_map(r@) == saved_aliases(self@),
    {
        proof {
            use_type_invariant(self);
        }
        let ghost s = self.entries@;
        let mut out: Vec<(String, String)> = Vec::new();
        let mut i: usize = 0;
        assert(pairs_map(out@) =~= saved_aliases(entries_map(s.take(0))));
        while i < self.entries.len()
            invariant
                s == self.entries@,
                distinct_names(s),
                i <= s.len(),
                distinct_keys(out@),
                pairs_map(out@) == saved_aliases(entries_map(s.take(i as int))),
            decreases s.len() - i,
        {
            let e = &self.entries[i];
            assert(s.take(i + 1).drop_last() =~= s.take(i as int));
            assert(s.take(i + 1).last() == s[i as int]);
            proof {
                lemma_entries_dom(s.take(i as int), e.name@);
                if entries_map(s.take(i as int)).dom().contains(e.name@) {
                    let j = choose|j: int| 0 <= j < s.take(i as int).len() && #[trigger] s.take(i as int)[j].name@ == e.name@;
                    assert(s[j].name@ == e.name@);
                }
            }
            if e.permanent {
                let ghost before = out@;
                proof {
                    lemma_pairs_dom(before, e.name@);
                    assert forall|j: int| 0 <= j < before.len() implies before[j].0@ != e.name@ by {
                        if before[j].0@ == e.name@ {
                            assert(pairs_map(before).dom().contains(e.name@));
                        }
                    }
                }
                out.push((e.name.clone(), e.content.clone()));
                assert(out@.drop_last() =~= before);
                assert(pairs_map(out@) =~= saved_aliases(entries_map(s.take(i + 1))));
            } else {
                assert(pairs_map(out@) =~= saved_aliases(entries_map(s.take(i + 1))));
            }
            i += 1;
        }
        assert(s.take(s.len() as int) =~= s);
        out
    }

    /// The permanent aliases as the text of a JSON object (what the shell
    /// writes to its alias file); writing them always succeeds.
    pub fn to_json(&self) -> (r: Result<String, AliasFileError>)
        ensures
            r is Ok,
            r matches Ok(t) ==> json_string_map(t@) == Some(saved_aliases(self@)),
    {
        let pairs = self.saved_pairs();
        match write_string_map(&pairs) {
            Ok(t) => Ok(t),
            Err(_) => Err(AliasFileError::Malformed),
        }
    }

    /// The aliases of a JSON object of strings (what the shell reads from its
    /// alias file), all of them permanent.
    pub fn from_json(text: &str) -> (r: Result<AliasTable, AliasFileError>)
        ensures
            r is Ok <==> json_string_map(text@) is Some,
            r matches Ok(t) ==> t@ == loaded_aliases(json_string_map(text@)->0),
    {
        match parse_string_map(text) {
            Err(_) => Err(AliasFileError::Malformed),
            Ok(pairs) => {
                let mut t = AliasTable::new();
                let mut i: usize = 0;
                assert(t@ =~= loaded_aliases(pairs_map(pairs@.take(0))));
                while i < pairs.len()
                    invariant
                        i <= pairs@.len(),
                        t@ == loaded_aliases(pairs_map(pairs@.take(i as int))),
                    decreases pairs@.len() - i,
                {
                    assert(pairs@.take(i + 1).drop_last() =~= pairs@.take(i as int));
                    let name = pairs[i].0.clone();
                    let content = pairs[i].1.clone();
                    t.insert(name, content, true);
                    assert(t@ =~= loaded_aliases(pairs_map(pairs@.take(i + 1))));
                    i += 1;
                }
                assert(pairs@.take(pairs@.len() as int) =~= pairs@);
                Ok(t)
            },
        }
    }
}

/// The alias file does not hold one JSON object of strings.
#[derive(Clone, Copy, Debug, PartialEq, Eq, Structural)]
pub enum AliasFileError {
    Malformed,
}

/// An alias that the `alias` builtin was asked to define.
#[derive(Debug)]
pub struct AliasDefinition {
    pub name: String,
    pub content: String,
    pub permanent: bool,
}

/// Why the arguments of `alias` define no alias.
#[derive(Debug)]
pub enum AliasError {
    /// The first argument is neither `-t` nor `-p`.
    InvalidArgument,
    /// No name follows the option.
    MissingName,
    /// Nothing follows the name (the name is kept).
    MissingContent(String),
}

/// Argument `i`, or the empty text where there is none.
pub open spec fn nth_arg(args: Seq<String>, i: int) -> Seq<char> {
    if 0 <= i < args.len() {
        args[i]@
    } else {
        Seq::empty()
    }
}

/// The first argument of `alias` is an accepted option: `-t`, `-p`, or none.
pub open spec fn alias_flag_ok(flag: Seq<char>) -> bool {
    flag == "-t"@ || flag == "-p"@ || flag.len() == 0
}

impl AliasError {
    /// The message that the shell prints for the error.
    pub fn message(&self) -> (r: String)
        ensures
            self is InvalidArgument ==> r@
                == "Invalid Argument! Can only use '-t' for temporary and '-p' for permanent aliases"@,
            self is MissingName ==> r@ == "Expected alias"@,
            self matches AliasError::MissingContent(name) ==> r@ == "Expected what '"@ + name@
                + "' is supposed to be an alias for"@,
    {
        match self {
            AliasError::InvalidArgument => {
                "Invalid Argument! Can only use '-t' for temporary and '-p' for permanent aliases".to_owned()
            },
            AliasError::MissingName => "Expected alias".to_owned(),
            AliasError::MissingContent(name) => {
                let mut m = "Expected what '".to_owned();
                m.append(name.as_str());
                m.append("' is supposed to be an alias for");
                m
            },
        }
    }
}

/// Reads the arguments of `alias [-t|-p] name content`: the option, then the
/// name and the content as the second and third arguments.
pub fn parse_alias_args(args: &[String]) -> (r: Result<AliasDefinition, AliasError>)
    ensures
        !alias_flag_ok(nth_arg(args@, 0)) ==> r matches Err(AliasError::InvalidArgument),
        alias_flag_ok(nth_arg(args@, 0)) && nth_arg(args@, 1).len() == 0 ==> r matches Err(
            AliasError::MissingName,
        ),
        alias_flag_ok(nth_arg(args@, 0)) && nth_arg(args@, 1).len() > 0 && nth_arg(args@, 2).len()
            == 0 ==> (r matches Err(AliasError::MissingContent(name)) && name@ == nth_arg(args@, 1)),
        alias_flag_ok(nth_arg(args@, 0)) && nth_arg(args@, 1).len() > 0 && nth_arg(args@, 2).len()
            > 0 ==> (r matches Ok(d) && d.name@ == nth_arg(args@, 1) && d.content@ == nth_arg(args@, 2)
            && d.permanent == (nth_arg(args@, 0) == "-p"@)),
{
    proof {
        reveal_strlit("-p");
        reveal_strlit("-t");
    }
    let mut permanent = false;
    if args.len() > 0 {
        let flag = args[0].as_str();
        if str_eq(flag, "-p") {
            permanent = true;
        } else if !(str_eq(flag, "-t") || flag.is_empty()) {
            return Err(AliasError::InvalidArgument);
        }
    } else {
        assert(nth_arg(args@, 0) =~= Seq::<char>::empty());
    }
    if args.len() < 2 || args[1].as_str().is_empty() {
        return Err(AliasError::MissingName);
    }
    let name = args[1].clone();
    if args.len() < 3 || args[2].as_str().is_empty() {
        return Err(AliasError::MissingContent(name));
    }
    let content = args[2].clone();
    Ok(AliasDefinition { name, content, permanent })
}

/// Saving and loading keeps the permanent aliases: loading what was saved of
/// a table gives each of its permanent aliases with its content, permanent,
/// and nothing else.
pub proof fn saved_aliases_load_back(m: Map<Seq<char>, (Seq<char>, bool)>)
    ensures
        forall|k: Seq<char>|
            loaded_aliases(saved_aliases(m)).dom().contains(k) <==> (m.dom().contains(k) && m[k].1),
        forall|k: Seq<char>|
            m.dom().contains(k) && m[k].1 ==> loaded_aliases(saved_aliases(m))[k] == m[k],
{
}

/// An alias reads back what was last set for it: after making `name` stand
/// for `content`, `name` stands for `content`, and every other alias is as it
/// was.
pub proof fn alias_lookup_after_insert(
    m: Map<Seq<char>, (Seq<char>, bool)>,
    name: Seq<char>,
    content: Seq<char>,
    permanent: bool,
)
    ensures
        m.insert(name, (content, permanent))[name] == (content, permanent),
        forall|k: Seq<char>|
            k != name ==> (m.insert(name, (content, permanent)).dom().contains(k) == m.dom().contains(k)
                && (m.dom().contains(k) ==> m.insert(name, (content, permanent))[k] == m[k])),
{
}

} // verus!
