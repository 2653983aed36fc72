//! Groups of arguments like "--input /dev/keyboard domain=foo grab".

use vstd::prelude::*;

use crate::domain::DomainTracker;
use crate::error::ArgumentError;
use crate::key::{resembles_key, spec_key_domain, spec_parsed_key, spec_parses, spec_resembles_key, Key, KeyParser, ParserView};
use crate::text::{
    chars_of, join_strs, parse_i32, spec_parse_int, spec_split_once, split_once, str_in, string_from_chars, strings_view,
    strs_contain,
};

verus! {

/// What an argument group holds, as plain values.
pub struct GroupView {
    pub name: Seq<char>,
    pub flags: Seq<Seq<char>>,
    pub clauses: Seq<(Seq<char>, Seq<char>)>,
    pub keys: Seq<Seq<char>>,
    pub paths: Seq<Seq<char>>,
}

/// Whether an argument is a path: paths must be absolute.
pub open spec fn spec_is_path(arg: Seq<char>) -> bool {
    arg.len() > 0 && arg[0] == '/'
}

/// The group after one more argument, or None if the group does not accept it. An argument is
/// a key if it resembles one, else a path if it is one, else a clause "name=value" if it has an
/// equals sign, and else a flag. Each flag may be given once.
pub open spec fn spec_group_step(
    group: GroupView,
    arg: Seq<char>,
    supported_flags: Seq<&str>,
    supported_clauses: Seq<&str>,
    supports_paths: bool,
    supports_keys: bool,
) -> Option<GroupView> {
    if spec_resembles_key(arg) {
        if supports_keys {
            Some(GroupView { keys: group.keys.push(arg), ..group })
        } else {
            None
        }
    } else if spec_is_path(arg) {
        if supports_paths {
            Some(GroupView { paths: group.paths.push(arg), ..group })
        } else {
            None
        }
    } else {
        let (name, value) = spec_split_once(arg, seq!['=']);
        match value {
            Some(v) => if strs_contain(supported_clauses, name) {
                Some(GroupView { clauses: group.clauses.push((name, v)), ..group })
            } else {
                None
            },
            None => if strs_contain(supported_flags, name) && !group.flags.contains(name) {
                Some(GroupView { flags: group.flags.push(name), ..group })
            } else {
                None
            },
        }
    }
}

/// The group that the arguments make, the first of which is its name.
pub open spec fn spec_group_from(
    args: Seq<Seq<char>>,
    supported_flags: Seq<&str>,
    supported_clauses: Seq<&str>,
    supports_paths: bool,
    supports_keys: bool,
) -> Option<GroupView>
    decreases args.len(),
{
    if args.len() == 0 {
        None
    } else if args.len() == 1 {
        Some(GroupView {
            name: args[0],
            flags: Seq::empty(),
            clauses: Seq::empty(),
            keys: Seq::empty(),
            paths: Seq::empty(),
        })
    } else {
        match spec_group_from(args.drop_last(), supported_flags, supported_clauses, supports_paths, supports_keys) {
            None => None,
            Some(group) => spec_group_step(group, args.last(), supported_flags, supported_clauses, supports_paths, supports_keys),
        }
    }
}

proof fn lemma_group_none_extends(
    args: Seq<Seq<char>>,
    k: int,
    supported_flags: Seq<&str>,
    supported_clauses: Seq<&str>,
    supports_paths: bool,
    supports_keys: bool,
)
    requires
        1 <= k <= args.len(),
        spec_group_from(args.take(k), supported_flags, supported_clauses, supports_paths, supports_keys) is None,
    ensures
        spec_group_from(args, supported_flags, supported_clauses, supports_paths, supports_keys) is None,
    decreases args.len() - k,
{
    if k < args.len() {
        assert(args.take(k + 1).drop_last() == args.take(k));
        lemma_group_none_extends(args, k + 1, supported_flags, supported_clauses, supports_paths, supports_keys);
    } else {
        assert(args.take(k) == args);
    }
}

/// A group has no more keys than there are arguments.
pub proof fn lemma_group_keys_bounded(
    args: Seq<Seq<char>>,
    supported_flags: Seq<&str>,
    supported_clauses: Seq<&str>,
    supports_paths: bool,
    supports_keys: bool,
)
    ensures
        spec_group_from(args, supported_flags, supported_clauses, supports_paths, supports_keys) matches Some(g)
            ==> g.keys.len() < args.len(),
    decreases args.len(),
{
    if args.len() > 1 {
        lemma_group_keys_bounded(args.drop_last(), supported_flags, supported_clauses, supports_paths, supports_keys);
    }
}

/// A group has no more clauses than there are arguments.
pub proof fn lemma_group_all_clauses_bounded(
    args: Seq<Seq<char>>,
    supported_flags: Seq<&str>,
    supported_clauses: Seq<&str>,
    supports_paths: bool,
    supports_keys: bool,
)
    ensures
        spec_group_from(args, supported_flags, supported_clauses, supports_paths, supports_keys) matches Some(g)
            ==> g.clauses.len() < args.len(),
    decreases args.len(),
{
    if args.len() > 1 {
        lemma_group_all_clauses_bounded(args.drop_last(), supported_flags, supported_clauses, supports_paths, supports_keys);
    }
}

/// A group has no more clauses of a name than there are arguments.
pub proof fn lemma_group_clauses_bounded(
    args: Seq<Seq<char>>,
    supported_flags: Seq<&str>,
    supported_clauses: Seq<&str>,
    supports_paths: bool,
    supports_keys: bool,
    name: Seq<char>,
)
    ensures
        spec_group_from(args, supported_flags, supported_clauses, supports_paths, supports_keys) matches Some(g)
            ==> clause_values(g.clauses, name).len() < args.len(),
    decreases args.len(),
{
    if args.len() > 1 {
        lemma_group_clauses_bounded(args.drop_last(), supported_flags, supported_clauses, supports_paths, supports_keys, name);
        if let Some(g) = spec_group_from(args.drop_last(), supported_flags, supported_clauses, supports_paths, supports_keys) {
            let (n, v) = spec_split_once(args.last(), seq!['=']);
            if v is Some {
                let c2 = g.clauses.push((n, v.unwrap()));
                assert(c2.drop_last() == g.clauses);
            }
        }
    }
}

/// The values of the clauses with a given name among the words of an argument, in order: those
/// words that neither resemble a key nor are a path, and that split at their first '=' into that
/// name and a value.
pub open spec fn word_clause_values(words: Seq<Seq<char>>, name: Seq<char>) -> Seq<Seq<char>>
    decreases words.len(),
{
    if words.len() == 0 {
        Seq::empty()
    } else {
        let rest = word_clause_values(words.drop_last(), name);
        let word = words.last();
        let (clause_name, value) = spec_split_once(word, seq!['=']);
        if !spec_resembles_key(word) && !spec_is_path(word) && clause_name == name && value is Some {
            rest.push(value.unwrap())
        } else {
            rest
        }
    }
}

/// The values of the clauses with a name in a parsed group are the values of the words after
/// its name that are clauses with that name, in order and with repetitions.
pub proof fn lemma_clauses_of_words(
    args: Seq<Seq<char>>,
    supported_flags: Seq<&str>,
    supported_clauses: Seq<&str>,
    supports_paths: bool,
    supports_keys: bool,
    name: Seq<char>,
)
    requires
        spec_group_from(args, supported_flags, supported_clauses, supports_paths, supports_keys) is Some,
    ensures
        clause_values(
            spec_group_from(args, supported_flags, supported_clauses, supports_paths, supports_keys).unwrap().clauses,
            name,
        ) == word_clause_values(args.skip(1), name),
    decreases args.len(),
{
    if args.len() == 1 {
        assert(args.skip(1).len() == 0);
    } else {
        let rest = args.drop_last();
        lemma_clauses_of_words(rest, supported_flags, supported_clauses, supports_paths, supports_keys, name);
        assert(args.skip(1).drop_last() == rest.skip(1));
        assert(args.skip(1).last() == args.last());
        let before = spec_group_from(rest, supported_flags, supported_clauses, supports_paths, supports_keys).unwrap();
        let word = args.last();
        let after = spec_group_from(args, supported_flags, supported_clauses, supports_paths, supports_keys).unwrap();
        assert(Some(after) == spec_group_step(before, word, supported_flags, supported_clauses, supports_paths, supports_keys));
        let (clause_name, value) = spec_split_once(word, seq!['=']);
        if spec_resembles_key(word) || spec_is_path(word) || value is None {
            assert(after.clauses == before.clauses);
        } else {
            assert(after.clauses == before.clauses.push((clause_name, value.unwrap())));
            assert(after.clauses.drop_last() == before.clauses);
        }
    }
}

pub open spec fn clauses_view(clauses: Seq<(String, String)>) -> Seq<(Seq<char>, Seq<char>)> {
    clauses.map_values(|c: (String, String)| (c.0@, c.1@))
}

/// The values of the clauses with a given name, in order.
pub open spec fn clause_values(clauses: Seq<(Seq<char>, Seq<char>)>, name: Seq<char>) -> Seq<Seq<char>>
    decreases clauses.len(),
{
    if clauses.len() == 0 {
        Seq::empty()
    } else {
        let rest = clause_values(clauses.drop_last(), name);
        if clauses.last().0 == name {
            rest.push(clauses.last().1)
        } else {
            rest
        }
    }
}

/// A ComplexArgGroup represents a group like "--input /dev/keyboard domain=foo grab",
/// containing paths like "/dev/keyboard", flags like "grab" and clauses like "domain=foo".
///
/// Depending on the type of argument, some clauses may be specified multiple times,
/// other times there may be at most one of them.
pub struct ComplexArgGroup {
    /// In the example, this would be "--input"
    pub name: String,
    /// In the example, this would be ["grab"]
    flags: Vec<String>,
    /// In the example, this would be [("domain", "foo")]
    clauses: Vec<(String, String)>,
    /// Any stray keys that show up in the argument list.
    pub keys: Vec<String>,
    pub paths: Vec<String>,
}

impl View for ComplexArgGroup {
    type V = GroupView;

    closed spec fn view(&self) -> GroupView {
        GroupView {
            name: self.name@,
            flags: strings_view(self.flags@),
            clauses: clauses_view(self.clauses@),
            keys: strings_view(self.keys@),
            paths: strings_view(self.paths@),
        }
    }
}

fn contains_string(list: &Vec<String>, s: &String) -> (res: bool)
    ensures
        res == strings_view(list@).contains(s@),
{
    let mut i: usize = 0;
    while i < list.len()
        invariant
            i <= list@.len(),
            forall|k: int| 0 <= k < i ==> (#[trigger] list@[k])@ != s@,
        decreases list@.len() - i,
    {
        if list[i] == *s {
            proof {
                assert(strings_view(list@)[i as int] == s@);
            }
            return true;
        }
        i += 1;
    }
    proof {
        if strings_view(list@).contains(s@) {
            let k = choose|k: int| 0 <= k < strings_view(list@).len() && strings_view(list@)[k] == s@;
            assert(list@[k]@ == s@);
        }
    }
    false
}

fn push_string(list: &mut Vec<String>, s: String)
    ensures
        strings_view(final(list)@) == strings_view(old(list)@).push(s@),
{
    list.push(s);
    proof {
        assert(strings_view(list@) =~= strings_view(old(list)@).push(s@));
    }
}

impl ComplexArgGroup {
    /// Sorts the arguments into the group's name, flags, clauses, keys and paths.
    pub fn parse(
        args: Vec<String>,
        supported_flags: &[&str],
        supported_clauses: &[&str],
        supports_paths: bool,
        supports_keys: bool,
        domains: &mut DomainTracker,
    ) -> (res: Result<ComplexArgGroup, ArgumentError>)
        requires
            old(domains).well_formed(),
            old(domains).next_id() + args@.len() < usize::MAX,
        ensures
            final(domains).well_formed(),
            final(domains).next_id() <= old(domains).next_id() + args@.len(),
            forall|name: Seq<char>| old(domains).lookup(name) is Some ==> final(domains).lookup(name) == old(domains).lookup(name),
            match res {
                Ok(group) => spec_group_from(strings_view(args@), supported_flags@, supported_clauses@, supports_paths, supports_keys)
                    == Some(group@),
                Err(_) => spec_group_from(strings_view(args@), supported_flags@, supported_clauses@, supports_paths, supports_keys)
                    is None,
            },
    {
        let ghost all = strings_view(args@);
        if args.len() == 0 {
            return Err(ArgumentError::new(join_strs(&["Internal error: created an argument group out of no arguments."])));
        }
        let mut group = ComplexArgGroup {
            name: args[0].clone(),
            flags: Vec::new(),
            clauses: Vec::new(),
            keys: Vec::new(),
            paths: Vec::new(),
        };
        proof {
            assert(all.take(1).drop_last().len() == 0);
            assert(group@ =~= spec_group_from(all.take(1), supported_flags@, supported_clauses@, supports_paths, supports_keys).unwrap()) by {
                assert(strings_view(group.flags@) =~= Seq::<Seq<char>>::empty());
                assert(clauses_view(group.clauses@) =~= Seq::<(Seq<char>, Seq<char>)>::empty());
                assert(strings_view(group.keys@) =~= Seq::<Seq<char>>::empty());
                assert(strings_view(group.paths@) =~= Seq::<Seq<char>>::empty());
            }
        }
        let mut i: usize = 1;
        while i < args.len()
            invariant
                1 <= i <= args@.len(),
                all == strings_view(args@),
                domains.well_formed(),
                domains.next_id() <= old(domains).next_id() + i,
                old(domains).next_id() + args@.len() < usize::MAX,
                forall|name: Seq<char>| old(domains).lookup(name) is Some ==> domains.lookup(name) == old(domains).lookup(name),
                spec_group_from(all.take(i as int), supported_flags@, supported_clauses@, supports_paths, supports_keys) == Some(group@),
            decreases args@.len() - i,
        {
            let arg = &args[i];
            let ghost g = group@;
            proof {
                assert(all.take(i + 1).drop_last() == all.take(i as int));
                assert(all.take(i + 1).last() == arg@);
            }
            let ghost before_domains = *domains;
            // Check whether this argument is a key.
            if resembles_key(arg.as_str(), domains) {
                if supports_keys {
                    push_string(&mut group.keys, arg.clone());
                    proof {
                        assert(group@ == GroupView { keys: g.keys.push(arg@), ..g });
                    }
                    i += 1;
                    continue;
                } else {
                    proof {
                        lemma_group_none_extends(all, i + 1, supported_flags@, supported_clauses@, supports_paths, supports_keys);
                    }
                    return Err(ArgumentError::new(join_strs(&[
                        "The ", group.name.as_str(), " argument doesn't take any keys: \"", arg.as_str(), "\"",
                    ])));
                }
            }
            let arg_chars = chars_of(arg.as_str());
            // Check whether this argument is a path.
            if arg_chars.len() > 0 && arg_chars[0] == '/' {
                if supports_paths {
                    push_string(&mut group.paths, arg.clone());
                    proof {
                        assert(group@ == GroupView { paths: g.paths.push(arg@), ..g });
                    }
                    i += 1;
                    continue;
                } else {
                    proof {
                        lemma_group_none_extends(all, i + 1, supported_flags@, supported_clauses@, supports_paths, supports_keys);
                    }
                    return Err(ArgumentError::new(join_strs(&[
                        "The ", group.name.as_str(), " argument doesn't take any paths: \"", arg.as_str(), "\"",
                    ])));
                }
            }
            // Check whether this argument is a flag or clause.
            let equals = vec!['='];
            proof {
                assert(equals@ =~= seq!['=']);
            }
            let (name_chars, value_opt) = split_once(arg_chars.as_slice(), equals.as_slice());
            let name = string_from_chars(name_chars.as_slice());
            match value_opt {
                Some(value_chars) => {
                    if str_in(supported_clauses, name_chars.as_slice()) {
                        let value = string_from_chars(value_chars.as_slice());
                        let ghost before = group.clauses@;
                        group.clauses.push((name, value));
                        proof {
                            assert(clauses_view(group.clauses@) =~= clauses_view(before).push((name_chars@, value_chars@)));
                            assert(group@ == GroupView { clauses: g.clauses.push((name_chars@, value_chars@)), ..g });
                        }
                    } else if str_in(supported_flags, name_chars.as_slice()) {
                        let value = string_from_chars(value_chars.as_slice());
                        proof {
                            lemma_group_none_extends(all, i + 1, supported_flags@, supported_clauses@, supports_paths, supports_keys);
                        }
                        return Err(ArgumentError::new(join_strs(&[
                            "The ", group.name.as_str(), " argument's ", name.as_str(),
                            " flag doesn't accept a value. Try removing the  \"=", value.as_str(), "\" part.",
                        ])));
                    } else {
                        proof {
                            lemma_group_none_extends(all, i + 1, supported_flags@, supported_clauses@, supports_paths, supports_keys);
                        }
                        return Err(ArgumentError::new(join_strs(&[
                            "The ", group.name.as_str(), " argument doesn't accept a ", name.as_str(), " clause: \"",
                            arg.as_str(), "\"",
                        ])));
                    }
                },
                None => {
                    if str_in(supported_flags, name_chars.as_slice()) {
                        if !contains_string(&group.flags, &name) {
                            push_string(&mut group.flags, name);
                            proof {
                                assert(group@ == GroupView { flags: g.flags.push(name_chars@), ..g });
                            }
                        } else {
                            proof {
                                lemma_group_none_extends(all, i + 1, supported_flags@, supported_clauses@, supports_paths, supports_keys);
                            }
                            return Err(ArgumentError::new(join_strs(&[
                                "The ", name.as_str(), " flag has been provided multiple times.",
                            ])));
                        }
                    } else if str_in(supported_clauses, name_chars.as_slice()) {
                        proof {
                            lemma_group_none_extends(all, i + 1, supported_flags@, supported_clauses@, supports_paths, supports_keys);
                        }
                        return Err(ArgumentError::new(join_strs(&[
                            "The ", group.name.as_str(), " argument's ", name.as_str(), " clause requires some value: \"",
                            name.as_str(), "=something\".",
                        ])));
                    } else {
                        proof {
                            lemma_group_none_extends(all, i + 1, supported_flags@, supported_clauses@, supports_paths, supports_keys);
                        }
                        return Err(ArgumentError::new(join_strs(&[
                            "The ", group.name.as_str(), " argument doesn't take a ", name.as_str(), " flag.",
                        ])));
                    }
                },
            }
            i += 1;
        }
        proof {
            assert(all.take(args@.len() as int) == all);
        }
        Ok(group)
    }
}

fn string_of(s: &str) -> (res: String)
    ensures
        res@ == s@,
{
    string_from_chars(chars_of(s).as_slice())
}

fn clone_strings(list: &Vec<String>) -> (res: Vec<String>)
    ensures
        strings_view(res@) == strings_view(list@),
{
    let mut res: Vec<String> = Vec::new();
    let mut i: usize = 0;
    while i < list.len()
        invariant
            i <= list@.len(),
            strings_view(res@) == strings_view(list@.take(i as int)),
        decreases list@.len() - i,
    {
        push_string(&mut res, list[i].clone());
        proof {
            assert(list@.take(i + 1) == list@.take(i as int).push(list@[i as int]));
            assert(strings_view(list@.take(i + 1)) =~= strings_view(list@.take(i as int)).push(list@[i as int]@));
        }
        i += 1;
    }
    proof {
        assert(list@.take(list@.len() as int) == list@);
    }
    res
}

impl ComplexArgGroup {
    /// The keys, in the order they were given.
    pub fn keys(&self) -> (res: &Vec<String>)
        ensures
            strings_view(res@) == self@.keys,
    {
        &self.keys
    }

    /// The paths, in the order they were given.
    pub fn paths(&self) -> (res: &Vec<String>)
        ensures
            strings_view(res@) == self@.paths,
    {
        &self.paths
    }

    /// The paths, taken out of the group.
    pub fn into_paths(self) -> (res: Vec<String>)
        ensures
            strings_view(res@) == self@.paths,
    {
        self.paths
    }

    /// The name of the argument, like "--input".
    pub fn name(&self) -> (res: &String)
        ensures
            res@ == self@.name,
    {
        &self.name
    }

    pub fn has_flag(&self, name: &str) -> (res: bool)
        ensures
            res == self@.flags.contains(name@),
    {
        let name_string = string_of(name);
        contains_string(&self.flags, &name_string)
    }

    /// All clauses with their names, in the order they were given.
    pub fn clauses(&self) -> (res: &Vec<(String, String)>)
        ensures
            clauses_view(res@) == self@.clauses,
    {
        &self.clauses
    }


    /// The values of the clauses with the given name, in order.
    pub fn get_clauses(&self, name: &str) -> (res: Vec<String>)
        ensures
            strings_view(res@) == clause_values(self@.clauses, name@),
    {
        let ghost all = clauses_view(self.clauses@);
        let mut res: Vec<String> = Vec::new();
        let mut i: usize = 0;
        while i < self.clauses.len()
            invariant
                i <= self.clauses@.len(),
                all == clauses_view(self.clauses@),
                strings_view(res@) == clause_values(all.take(i as int), name@),
            decreases self.clauses@.len() - i,
        {
            proof {
                assert(all.take(i + 1).drop_last() == all.take(i as int));
                assert(all.take(i + 1).last() == (self.clauses@[i as int].0@, self.clauses@[i as int].1@));
            }
            let clause_name = chars_of(self.clauses[i].0.as_str());
            let wanted = chars_of(name);
            if crate::text::chars_eq(clause_name.as_slice(), wanted.as_slice()) {
                push_string(&mut res, self.clauses[i].1.clone());
            }
            i += 1;
        }
        proof {
            assert(all.take(self.clauses@.len() as int) == all);
        }
        res
    }

    /// Get a clause of which at most one may exist.
    /// Multiple copies of this clause will return an error, zero copies will return None.
    pub fn get_unique_clause(&self, name: &str) -> (res: Result<Option<String>, ArgumentError>)
        ensures
            match res {
                Ok(None) => clause_values(self@.clauses, name@).len() == 0,
                Ok(Some(value)) => clause_values(self@.clauses, name@) == seq![value@],
                Err(_) => clause_values(self@.clauses, name@).len() > 1,
            },
            match res {
                Ok(v) => spec_unique_clause(self@, name@) == Some(opt_string_view(v)),
                Err(_) => spec_unique_clause(self@, name@) is None,
            },
    {
        let clauses = self.get_clauses(name);
        proof {
            assert(strings_view(clauses@).len() == clauses@.len());
        }
        if clauses.len() == 1 {
            let value = clauses[0].clone();
            proof {
                assert(strings_view(clauses@)[0] == value@);
                assert(strings_view(clauses@) =~= seq![value@]);
            }
            Ok(Some(value))
        } else if clauses.len() == 0 {
            Ok(None)
        } else {
            Err(ArgumentError::new(join_strs(&[
                "Multiple copies of the ", name, "= clause have been provided to ", self.name.as_str(), ".",
            ])))
        }
    }

    pub fn require_paths(&self) -> (res: Result<Vec<String>, ArgumentError>)
        ensures
            match res {
                Ok(paths) => self@.paths.len() > 0 && strings_view(paths@) == self@.paths,
                Err(_) => self@.paths.len() == 0,
            },
    {
        if self.paths.len() == 0 {
            Err(ArgumentError::new(join_strs(&[
                "The ", self.name.as_str(), " argument requires a path. Remember that all paths must be provided as absolute paths.",
            ])))
        } else {
            Ok(clone_strings(&self.paths))
        }
    }

    pub fn require_keys(&self) -> (res: Result<Vec<String>, ArgumentError>)
        ensures
            match res {
                Ok(keys) => self@.keys.len() > 0 && strings_view(keys@) == self@.keys,
                Err(_) => self@.keys.len() == 0,
            },
    {
        if self.keys.len() == 0 {
            Err(ArgumentError::new(join_strs(&["The ", self.name.as_str(), " argument requires a key."])))
        } else {
            Ok(clone_strings(&self.keys))
        }
    }

    /// Returns all keys this ComplexArgGroup has. If it has no keys, it will return
    /// a single "" key instead.
    pub fn get_keys_or_empty_key(&self) -> (res: Vec<String>)
        ensures
            self@.keys.len() == 0 ==> strings_view(res@) == seq![Seq::<char>::empty()],
            self@.keys.len() > 0 ==> strings_view(res@) == self@.keys,
    {
        if self.keys.len() == 0 {
            let mut res: Vec<String> = Vec::new();
            push_string(&mut res, String::new());
            proof {
                assert(strings_view(res@) =~= seq![Seq::<char>::empty()]);
            }
            res
        } else {
            clone_strings(&self.keys)
        }
    }

    /// Returns the value of the given clause. If no such clause is specified but a flag with
    /// the same name is specified, returns the value of `default_if_flag`.
    pub fn get_unique_clause_or_default_if_flag(&self, clause_or_flag: &str, default_if_flag: &str)
        -> (res: Result<Option<String>, ArgumentError>)
        ensures
            ({
                let values = clause_values(self@.clauses, clause_or_flag@);
                let flagged = self@.flags.contains(clause_or_flag@);
                match res {
                    Ok(None) => values.len() == 0 && !flagged,
                    Ok(Some(value)) => (values.len() == 0 && flagged && value@ == default_if_flag@)
                        || (values == seq![value@] && !flagged),
                    Err(_) => values.len() > 1 || (values.len() > 0 && flagged),
                }
            }),
            match res {
                Ok(v) => spec_clause_or_flag(self@, clause_or_flag@, default_if_flag@) == Some(opt_string_view(v)),
                Err(_) => spec_clause_or_flag(self@, clause_or_flag@, default_if_flag@) is None,
            },
    {
        if self.has_flag(clause_or_flag) && self.get_clauses(clause_or_flag).len() > 0 {
            return Err(ArgumentError::new(join_strs(&[
                "Cannot specify both the ", clause_or_flag, " flag an a ", clause_or_flag, " clause.",
            ])));
        }
        match self.get_unique_clause(clause_or_flag)? {
            Some(value) => Ok(Some(value)),
            None => {
                if self.has_flag(clause_or_flag) {
                    Ok(Some(string_of(default_if_flag)))
                } else {
                    Ok(None)
                }
            },
        }
    }
}

/// The value of a clause that may be given at most once, read as an i32: None if it is absent,
/// and a failure if it is given more than once or is no integer that fits.
pub open spec fn spec_unique_clause_i32(group: GroupView, name: Seq<char>) -> Option<Option<i32>> {
    let values = clause_values(group.clauses, name);
    if values.len() == 0 {
        Some(None)
    } else if values.len() == 1 {
        match spec_parse_int(values[0]) {
            Some(v) => if i32::MIN <= v <= i32::MAX {
                Some(Some(v as i32))
            } else {
                None
            },
            None => None,
        }
    } else {
        None
    }
}

impl ComplexArgGroup {
    /// Gets a clause of which at most one may exist, as an integer.
    pub fn get_unique_clause_i32(&self, name: &str) -> (res: Result<Option<i32>, ArgumentError>)
        ensures
            match res {
                Ok(v) => spec_unique_clause_i32(self@, name@) == Some(v),
                Err(_) => spec_unique_clause_i32(self@, name@) is None,
            },
    {
        match self.get_unique_clause(name)? {
            None => Ok(None),
            Some(value) => {
                let value_chars = chars_of(value.as_str());
                match parse_i32(value_chars.as_slice()) {
                    Some(v) => Ok(Some(v)),
                    None => Err(ArgumentError::new(join_strs(&[
                        "Cannot interpret the value of the ", name, "= clause, \"", value.as_str(), "\", as an integer.",
                    ]))),
                }
            },
        }
    }

    /// Gets a clause of which exactly one must exist.
    pub fn require_unique_clause(&self, name: &str) -> (res: Result<String, ArgumentError>)
        ensures
            match res {
                Ok(value) => clause_values(self@.clauses, name@) == seq![value@],
                Err(_) => clause_values(self@.clauses, name@).len() != 1,
            },
    {
        match self.get_unique_clause(name)? {
            Some(value) => Ok(value),
            None => Err(ArgumentError::new(join_strs(&[
                "The ", self.name.as_str(), " argument requires a ", name, "= clause.",
            ]))),
        }
    }
}

/// The value of a clause that may be given at most once: None if absent, a failure if repeated.
pub open spec fn spec_unique_clause(group: GroupView, name: Seq<char>) -> Option<Option<Seq<char>>> {
    let values = clause_values(group.clauses, name);
    if values.len() == 0 {
        Some(None)
    } else if values.len() == 1 {
        Some(Some(values[0]))
    } else {
        None
    }
}

/// The value of a clause, or `default` if instead a flag of the same name is given; a failure if
/// the clause is repeated or given together with the flag.
pub open spec fn spec_clause_or_flag(group: GroupView, name: Seq<char>, default: Seq<char>) -> Option<Option<Seq<char>>> {
    let values = clause_values(group.clauses, name);
    let flagged = group.flags.contains(name);
    if values.len() > 1 || (values.len() > 0 && flagged) {
        None
    } else if values.len() == 1 {
        Some(Some(values[0]))
    } else if flagged {
        Some(Some(default))
    } else {
        Some(None)
    }
}

pub open spec fn opt_string_view(o: Option<String>) -> Option<Seq<char>> {
    match o {
        Some(s) => Some(s@),
        None => None,
    }
}

/// The keys of an argument, or the single key "" that matches every event if it has none.
pub open spec fn spec_keys_or_empty_key(keys: Seq<Seq<char>>) -> Seq<Seq<char>> {
    if keys.len() == 0 {
        seq![Seq::<char>::empty()]
    } else {
        keys
    }
}

/// Whether every one of some key strings parses.
pub open spec fn all_parse(p: ParserView, strs: Seq<Seq<char>>) -> bool {
    forall|i: int| 0 <= i < strs.len() ==> spec_parses(p, #[trigger] strs[i])
}

/// Whether keys are the key strings parsed, with the domains given.
pub open spec fn parsed_keys_are(keys: Seq<Key>, p: ParserView, strs: Seq<Seq<char>>, domains: DomainTracker) -> bool {
    &&& keys.len() == strs.len()
    &&& forall|i: int| 0 <= i < strs.len() ==> (#[trigger] keys[i])@ == spec_parsed_key(p, strs[i], domains)
}

/// Parses a list of key strings, resolving their domain names.
pub fn parse_key_list(parser: &KeyParser, strs: &Vec<String>, domains: &mut DomainTracker) -> (res: Result<Vec<Key>, ArgumentError>)
    requires
        old(domains).well_formed(),
        old(domains).next_id() + strs@.len() < usize::MAX,
    ensures
        final(domains).well_formed(),
        final(domains).next_id() <= old(domains).next_id() + strs@.len(),
        forall|name: Seq<char>| old(domains).lookup(name) is Some ==> final(domains).lookup(name) == old(domains).lookup(name),
        res is Ok <==> all_parse(parser@, strings_view(strs@)),
        res matches Ok(keys) ==> parsed_keys_are(keys@, parser@, strings_view(strs@), *final(domains))
            && (forall|i: int| 0 <= i < keys@.len() ==> (#[trigger] keys@[i]).well_formed())
            && forall|i: int| 0 <= i < strs@.len() ==> (#[trigger] spec_key_domain(strs@[i]@)) is Some
                ==> final(domains).lookup(spec_key_domain(strs@[i]@).unwrap()) is Some,
{
    let ghost views = strings_view(strs@);
    let res = parser.parse_all(strs.as_slice(), domains);
    proof {
        assert forall|i: int| 0 <= i < strs@.len() implies #[trigger] strs@[i]@ == views[i] by {}
        if res is Ok {
            assert forall|i: int| 0 <= i < views.len() implies spec_parses(parser@, #[trigger] views[i]) by {
                assert(strs@[i]@ == views[i]);
            }
        } else {
            let i = choose|i: int| 0 <= i < strs@.len() && !spec_parses(parser@, #[trigger] strs@[i]@);
            assert(strs@[i]@ == views[i]);
        }
    }
    res
}

} // verus!
