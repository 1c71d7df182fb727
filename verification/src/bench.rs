//! Planning a benchmark session: which options are flags and which are
//! benchmark names, which revisions to visit, and the arguments of each run.

use crate::orchestrate::begin;
use crate::orchestrate::Action;
use crate::orchestrate::Orchestrator;
use crate::text::chars_of;
use crate::text::string_of;
use crate::text::strings;
use vstd::prelude::*;

verus! {

/// Whether an option is a flag: it begins with `-`.
pub open spec fn is_flag(token: Seq<char>) -> bool {
    token.len() > 0 && token[0] == '-'
}

/// The flags among the options, in order.
pub open spec fn plan_flags(options: Seq<Seq<char>>) -> Seq<Seq<char>> {
    options.filter(|t: Seq<char>| is_flag(t))
}

/// The benchmark names among the options, in order. Without any name the
/// plan holds the empty name alone, which stands for every benchmark.
pub open spec fn plan_names(options: Seq<Seq<char>>) -> Seq<Seq<char>> {
    let names = options.filter(|t: Seq<char>| !is_flag(t));
    if names.len() == 0 {
        seq![Seq::<char>::empty()]
    } else {
        names
    }
}

/// The arguments that build the benchmarks: the subcommand, the flags, and
/// the request not to run.
pub open spec fn build_arguments(flags: Seq<Seq<char>>) -> Seq<Seq<char>> {
    (seq!["bench"@] + flags).push("--no-run"@)
}

/// The arguments that run one benchmark: the subcommand, the flags, and the
/// name unless it is the empty name.
pub open spec fn run_arguments(flags: Seq<Seq<char>>, name: Seq<char>) -> Seq<Seq<char>> {
    if name.len() == 0 {
        seq!["bench"@] + flags
    } else {
        (seq!["bench"@] + flags).push(name)
    }
}

/// The options of a session, parted into flags, which every run of the
/// benchmark command gets as they are, and names, each of which is run on its
/// own.
#[derive(Debug, PartialEq, Eq)]
pub struct BenchmarkPlan {
    pub flags: Vec<String>,
    pub names: Vec<String>,
}

fn starts_with_dash(token: &String) -> (r: bool)
    ensures
        r == is_flag(token@),
{
    let chars = chars_of(token.as_str());
    chars.len() > 0 && chars[0] == '-'
}

impl BenchmarkPlan {
    /// Parts the options into flags and names, each kind in the order given.
    pub fn parse(options: &[String]) -> (plan: BenchmarkPlan)
        ensures
            strings(plan.flags@) == plan_flags(strings(options@)),
            strings(plan.names@) == plan_names(strings(options@)),
            plan.names@.len() > 0,
    {
        let ghost tokens = strings(options@);
        let mut flags: Vec<String> = Vec::new();
        let mut names: Vec<String> = Vec::new();
        let mut i: usize = 0;
        proof {
            reveal(Seq::filter);
            assert(tokens.take(0) =~= Seq::empty());
            assert(strings(flags@) =~= Seq::empty());
            assert(strings(names@) =~= Seq::empty());
        }
        while i < options.len()
            invariant
                0 <= i <= options.len(),
                tokens == strings(options@),
                strings(flags@) == tokens.take(i as int).filter(|t: Seq<char>| is_flag(t)),
                strings(names@) == tokens.take(i as int).filter(|t: Seq<char>| !is_flag(t)),
            decreases options.len() - i,
        {
            proof {
                reveal(Seq::filter);
                assert(tokens.take(i + 1).drop_last() =~= tokens.take(i as int));
                assert(tokens.take(i + 1).last() == options@[i as int]@);
            }
            let token = options[i].clone();
            if starts_with_dash(&token) {
                proof {
                    assert(strings(flags@.push(token)) =~= strings(flags@).push(token@));
                }
                flags.push(token);
            } else {
                proof {
                    assert(strings(names@.push(token)) =~= strings(names@).push(token@));
                }
                names.push(token);
            }
            i += 1;
        }
        proof {
            assert(tokens.take(i as int) =~= tokens);
        }
        if names.len() == 0 {
            let everything = String::new();
            proof {
                assert(strings(names@.push(everything)) =~= seq![Seq::<char>::empty()]);
            }
            names.push(everything);
        }
        BenchmarkPlan { flags, names }
    }

    /// The arguments of the run that builds the benchmarks without running
    /// them.
    pub fn build_args(&self) -> (args: Vec<String>)
        ensures
            strings(args@) == build_arguments(strings(self.flags@)),
    {
        let mut args = self.common_args();
        let last = "--no-run".to_owned();
        proof {
            assert(strings(args@.push(last)) =~= strings(args@).push(last@));
        }
        args.push(last);
        args
    }

    /// The arguments of a run of the benchmark `self.names[name]`.
    pub fn run_args(&self, name: usize) -> (args: Vec<String>)
        requires
            name < self.names@.len(),
        ensures
            strings(args@) == run_arguments(strings(self.flags@), self.names@[name as int]@),
    {
        let mut args = self.common_args();
        if !self.names[name].as_str().is_empty() {
            let last = self.names[name].clone();
            proof {
                assert(strings(args@.push(last)) =~= strings(args@).push(last@));
            }
            args.push(last);
        } else {
            proof {
                assert(strings(args@) + Seq::<Seq<char>>::empty() =~= strings(args@));
            }
        }
        args
    }

    fn common_args(&self) -> (args: Vec<String>)
        ensures
            strings(args@) == seq!["bench"@] + strings(self.flags@),
    {
        let mut args: Vec<String> = Vec::new();
        args.push("bench".to_owned());
        let mut i: usize = 0;
        proof {
            assert(strings(self.flags@).take(0) =~= Seq::empty());
            assert(strings(args@) =~= seq!["bench"@] + strings(self.flags@).take(0));
        }
        while i < self.flags.len()
            invariant
                0 <= i <= self.flags.len(),
                strings(args@) == seq!["bench"@] + strings(self.flags@).take(i as int),
            decreases self.flags.len() - i,
        {
            let flag = self.flags[i].clone();
            proof {
                assert(strings(args@.push(flag)) =~= strings(args@).push(flag@));
                assert(strings(self.flags@).take(i + 1) =~= strings(self.flags@).take(i as int).push(
                    flag@,
                ));
                assert((seq!["bench"@] + strings(self.flags@).take(i as int)).push(flag@) =~= seq![
                    "bench"@,
                ] + strings(self.flags@).take(i + 1));
            }
            args.push(flag);
            i += 1;
        }
        proof {
            assert(strings(self.flags@).take(i as int) =~= strings(self.flags@));
        }
        args
    }

    /// How many times the benchmark command is started on one revision: once
    /// to build, then `repeat` times for each name. `None` where that number
    /// does not fit the machine's word.
    pub fn runs_per_commit(&self, repeat: usize) -> (r: Option<usize>)
        ensures
            match r {
                Some(n) => n == repeat * self.names@.len() + 1,
                None => repeat * self.names@.len() + 1 > usize::MAX,
            },
    {
        match repeat.checked_mul(self.names.len()) {
            Some(runs) => runs.checked_add(1),
            None => None,
        }
    }
}

/// Whether `c` is white space: a character with the Unicode property
/// `White_Space`.
pub open spec fn is_whitespace(c: char) -> bool {
    ||| '\u{9}' <= c <= '\u{d}'
    ||| c == ' '
    ||| c == '\u{85}'
    ||| c == '\u{a0}'
    ||| c == '\u{1680}'
    ||| '\u{2000}' <= c <= '\u{200a}'
    ||| c == '\u{2028}'
    ||| c == '\u{2029}'
    ||| c == '\u{202f}'
    ||| c == '\u{205f}'
    ||| c == '\u{3000}'
}

/// Whether `c` parts two revisions of a list: a comma or white space.
pub open spec fn is_separator(c: char) -> bool {
    c == ',' || is_whitespace(c)
}

fn separates(c: char) -> (r: bool)
    ensures
        r == is_separator(c),
{
    c == ',' || ('\u{9}' <= c && c <= '\u{d}') || c == ' ' || c == '\u{85}' || c == '\u{a0}' || c
        == '\u{1680}' || ('\u{2000}' <= c && c <= '\u{200a}') || c == '\u{2028}' || c == '\u{2029}'
        || c == '\u{202f}' || c == '\u{205f}' || c == '\u{3000}'
}

/// Where the token that starts at `from` ends: at the next separator, or at
/// the end of `s`.
pub open spec fn token_end(s: Seq<char>, from: int) -> int
    decreases s.len() - from,
{
    if from < 0 || from >= s.len() || is_separator(s[from]) {
        from
    } else {
        token_end(s, from + 1)
    }
}

/// A token ends at or after its start, within the text, and holds no
/// separator.
pub proof fn lemma_token_end(s: Seq<char>, from: int)
    requires
        0 <= from <= s.len(),
    ensures
        from <= token_end(s, from) <= s.len(),
        from < s.len() && !is_separator(s[from]) ==> from < token_end(s, from),
        forall|k: int| from <= k < token_end(s, from) ==> !is_separator(s[k]),
        token_end(s, from) < s.len() ==> is_separator(s[token_end(s, from)]),
    decreases s.len() - from,
{
    if from < s.len() && !is_separator(s[from]) {
        lemma_token_end(s, from + 1);
    }
}

/// The revisions that a list names from position `from` on: the longest
/// runs of characters that are no separators, in order.
pub open spec fn tokens_from(s: Seq<char>, from: int) -> Seq<Seq<char>>
    decreases s.len() - from,
{
    if from < 0 || from >= s.len() {
        Seq::empty()
    } else if is_separator(s[from]) {
        tokens_from(s, from + 1)
    } else {
        let end = token_end(s, from);
        proof {
            lemma_token_end(s, from);
        }
        seq![s.subrange(from, end)] + tokens_from(s, end)
    }
}

/// The revisions that a list names. Commas and white space part them, so
/// that both `a,b` and `a b` name two.
pub open spec fn revision_tokens(list: Seq<char>) -> Seq<Seq<char>> {
    tokens_from(list, 0)
}

/// Splits a list of revisions into the revisions it names.
pub fn split_revisions(list: &str) -> (tokens: Vec<String>)
    ensures
        strings(tokens@) == revision_tokens(list@),
{
    let chars = chars_of(list);
    let mut tokens: Vec<String> = Vec::new();
    let mut i: usize = 0;
    proof {
        assert(strings(tokens@) =~= Seq::<Seq<char>>::empty());
    }
    while i < chars.len()
        invariant
            chars@ == list@,
            0 <= i <= chars.len(),
            strings(tokens@) + tokens_from(chars@, i as int) == revision_tokens(chars@),
        decreases chars.len() - i,
    {
        if separates(chars[i]) {
            i += 1;
        } else {
            let mut end: usize = i + 1;
            while end < chars.len() && !separates(chars[end])
                invariant
                    i < end <= chars.len(),
                    token_end(chars@, i as int) == token_end(chars@, end as int),
                decreases chars.len() - end,
            {
                end += 1;
            }
            let token = string_of(&chars, i, end);
            proof {
                assert(strings(tokens@.push(token)) =~= strings(tokens@) + seq![token@]);
                assert(strings(tokens@) + (seq![token@] + tokens_from(chars@, end as int))
                    =~= strings(tokens@) + seq![token@] + tokens_from(chars@, end as int));
            }
            tokens.push(token);
            i = end;
        }
    }
    proof {
        assert(tokens_from(chars@, i as int) =~= Seq::<Seq<char>>::empty());
    }
    tokens
}

/// What the repository holds under a name.
#[derive(Debug, PartialEq, Eq)]
pub struct ResolvedObject {
    /// The shortest identifier that names the object alone.
    pub short_id: String,
    /// Whether the object is a commit.
    pub is_commit: bool,
}

/// A revision as the user named it, with what the repository holds under
/// that name, if anything.
#[derive(Debug, PartialEq, Eq)]
pub struct Revision {
    pub token: String,
    pub object: Option<ResolvedObject>,
}

/// Why a list of revisions cannot be visited.
#[derive(Debug, PartialEq, Eq)]
pub enum ResolveError {
    /// The repository holds nothing under this name.
    InvalidRevision { token: String },
    /// The object with this identifier is no commit.
    NotACommit { short_id: String },
}

/// Whether the repository holds something under each of the first `n` names.
pub open spec fn all_known(revisions: Seq<Revision>, n: int) -> bool {
    forall|i: int| 0 <= i < n ==> (#[trigger] revisions[i]).object is Some
}

/// Whether each of the first `n` names stands for a commit.
pub open spec fn all_commits(revisions: Seq<Revision>, n: int) -> bool {
    forall|i: int|
        0 <= i < n ==> (#[trigger] revisions[i]).object is Some && revisions[i].object->0.is_commit
}

/// Whether `r` is the verdict on a list of revisions. A name that stands
/// for nothing is reported first, the earliest such name in the list; else
/// the earliest name that stands for something other than a commit. Where
/// every name stands for a commit the verdict is their short identifiers, in
/// the order of the list.
pub open spec fn is_resolution(
    revisions: Seq<Revision>,
    r: Result<Vec<String>, ResolveError>,
) -> bool {
    match r {
        Ok(labels) => {
            &&& all_commits(revisions, revisions.len() as int)
            &&& labels@.len() == revisions.len()
            &&& forall|i: int|
                0 <= i < labels@.len() ==> (#[trigger] labels@[i])@
                    == revisions[i].object->0.short_id@
        },
        Err(ResolveError::InvalidRevision { token }) => exists|i: int|
            {
                &&& 0 <= i < revisions.len()
                &&& all_known(revisions, i)
                &&& (#[trigger] revisions[i]).object is None
                &&& token@ == revisions[i].token@
            },
        Err(ResolveError::NotACommit { short_id }) => {
            &&& all_known(revisions, revisions.len() as int)
            &&& exists|i: int|
                {
                    &&& 0 <= i < revisions.len()
                    &&& all_commits(revisions, i)
                    &&& !(#[trigger] revisions[i]).object->0.is_commit
                    &&& short_id@ == revisions[i].object->0.short_id@
                }
        },
    }
}

/// Decides whether a list of revisions can be visited, before anything is
/// checked out.
pub fn resolve_all(revisions: &Vec<Revision>) -> (r: Result<Vec<String>, ResolveError>)
    ensures
        is_resolution(revisions@, r),
{
    let mut i: usize = 0;
    while i < revisions.len()
        invariant
            0 <= i <= revisions.len(),
            all_known(revisions@, i as int),
        decreases revisions.len() - i,
    {
        if revisions[i].object.is_none() {
            return Err(ResolveError::InvalidRevision { token: revisions[i].token.clone() });
        }
        i += 1;
    }
    let mut labels: Vec<String> = Vec::new();
    let mut k: usize = 0;
    while k < revisions.len()
        invariant
            0 <= k <= revisions.len(),
            all_known(revisions@, revisions@.len() as int),
            all_commits(revisions@, k as int),
            labels@.len() == k,
            forall|i: int|
                0 <= i < k ==> (#[trigger] labels@[i])@ == revisions@[i].object->0.short_id@,
        decreases revisions.len() - k,
    {
        match &revisions[k].object {
            Some(object) => {
                if !object.is_commit {
                    return Err(ResolveError::NotACommit { short_id: object.short_id.clone() });
                }
                labels.push(object.short_id.clone());
            },
            None => {
                assert(false);
            },
        }
        k += 1;
    }
    Ok(labels)
}

/// Opens a benchmark session. The options are parted into flags and
/// names. With a list of revisions, each as the repository resolved it, the
/// session visits them in order, and is refused before anything is checked
/// out where one of them is no commit; without a list it runs on the
/// working tree as it stands, whose commit has the short identifier `head`.
/// The result is the session with its first request.
pub fn bench(
    flag_repeat: usize,
    revisions: Option<Vec<Revision>>,
    bench_options: &[String],
    head: String,
) -> (r: Result<(Orchestrator, Action), ResolveError>)
    ensures
        match r {
            Ok((session, first)) => {
                &&& session.wf()
                &&& session.repeat == flag_repeat
                &&& session.head == head
                &&& strings(session.plan.flags@) == plan_flags(strings(bench_options@))
                &&& strings(session.plan.names@) == plan_names(strings(bench_options@))
                &&& match revisions {
                    Some(list) => session.revisions is Some && is_resolution(
                        list@,
                        Ok(session.revisions->0),
                    ),
                    None => session.revisions is None,
                }
                &&& (session.progress, first@) == begin(session.sizes())
            },
            Err(e) => revisions is Some && is_resolution(revisions->0@, Err(e)),
        },
{
    let plan = BenchmarkPlan::parse(bench_options);
    let labels = match &revisions {
        Some(list) => match resolve_all(list) {
            Ok(labels) => Some(labels),
            Err(e) => {
                return Err(e);
            },
        },
        None => None,
    };
    Ok(Orchestrator::start(plan, flag_repeat, labels, head))
}

} // verus!
