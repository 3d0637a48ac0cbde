//! The command line of the snapshot archive tool.
//!
//! Flags are `--name value`, or `--name` alone for the few that are switches.
//! A command takes the flags it knows; one that is left over is an error, so
//! that a misspelled bound never becomes an unbounded default.

use vstd::prelude::*;

use crate::filter::{no_filter, sort_named, FilterView, SpanFilter, SpanSort};
use crate::queries::{joined, read_u64, read_usize, u64_of, usize_of};
use crate::text::{copy, debug_text, opt_view, quoted, same, strip_prefix, text_after, texts};

verus! {

// ------------------------------------------------------------------------ flags

/// Why a command line is refused.
#[derive(Debug)]
pub enum FlagError {
    /// There is no command.
    NoCommand,
    /// There is no command of this name.
    UnknownCommand(String),
    /// An argument that is no flag.
    Unexpected(String),
    /// A flag without its value, by the flag's name.
    NeedsValue(String),
    /// A flag that the command does not know, and the ones it does.
    Unknown { name: String, known: String },
    /// A flag whose value is not a number.
    NotANumber { name: String, value: String },
    /// An order that does not exist.
    UnknownSort(String),
    /// A flag that has to be given, in words.
    Required(String),
}

pub enum FlagErrorView {
    NoCommand,
    UnknownCommand(Seq<char>),
    Unexpected(Seq<char>),
    NeedsValue(Seq<char>),
    Unknown { name: Seq<char>, known: Seq<char> },
    NotANumber { name: Seq<char>, value: Seq<char> },
    UnknownSort(Seq<char>),
    Required(Seq<char>),
}

impl View for FlagError {
    type V = FlagErrorView;

    open spec fn view(&self) -> FlagErrorView {
        match self {
            FlagError::NoCommand => FlagErrorView::NoCommand,
            FlagError::UnknownCommand(c) => FlagErrorView::UnknownCommand(c@),
            FlagError::Unexpected(a) => FlagErrorView::Unexpected(a@),
            FlagError::NeedsValue(n) => FlagErrorView::NeedsValue(n@),
            FlagError::Unknown { name, known } => FlagErrorView::Unknown {
                name: name@,
                known: known@,
            },
            FlagError::NotANumber { name, value } => FlagErrorView::NotANumber {
                name: name@,
                value: value@,
            },
            FlagError::UnknownSort(s) => FlagErrorView::UnknownSort(s@),
            FlagError::Required(w) => FlagErrorView::Required(w@),
        }
    }
}

/// What is said of a refused command line.
pub open spec fn flag_message(error: FlagErrorView) -> Seq<char> {
    match error {
        FlagErrorView::NoCommand => "a command is required"@,
        FlagErrorView::UnknownCommand(command) => "unknown command "@ + debug_text(command),
        FlagErrorView::Unexpected(argument) => "unexpected argument "@ + debug_text(argument)
            + " (flags are --name value)"@,
        FlagErrorView::NeedsValue(name) => "--"@ + name + " needs a value"@,
        FlagErrorView::Unknown { name, known } => "unknown flag --"@ + name + " (known: "@ + known
            + ")"@,
        FlagErrorView::NotANumber { name, value } => "--"@ + name + " "@ + debug_text(value)
            + " is not a number"@,
        FlagErrorView::UnknownSort(sort) => "unknown --sort "@ + debug_text(sort),
        FlagErrorView::Required(words) => words,
    }
}

impl FlagError {
    /// Says why a command line is refused.
    pub fn message(&self) -> (r: String)
        ensures
            r@ == flag_message(self@),
    {
        match self {
            FlagError::NoCommand => copy("a command is required"),
            FlagError::UnknownCommand(command) => {
                let given = quoted(command.as_str());
                joined("unknown command ", given.as_str())
            },
            FlagError::Unexpected(argument) => {
                let given = quoted(argument.as_str());
                let mut r = joined("unexpected argument ", given.as_str());
                r.push_str(" (flags are --name value)");
                r
            },
            FlagError::NeedsValue(name) => {
                let mut r = joined("--", name.as_str());
                r.push_str(" needs a value");
                r
            },
            FlagError::Unknown { name, known } => {
                let mut r = joined("unknown flag --", name.as_str());
                r.push_str(" (known: ");
                r.push_str(known.as_str());
                r.push_str(")");
                r
            },
            FlagError::NotANumber { name, value } => {
                let given = quoted(value.as_str());
                let mut r = joined("--", name.as_str());
                r.push_str(" ");
                r.push_str(given.as_str());
                r.push_str(" is not a number");
                r
            },
            FlagError::UnknownSort(sort) => {
                let given = quoted(sort.as_str());
                joined("unknown --sort ", given.as_str())
            },
            FlagError::Required(words) => copy(words.as_str()),
        }
    }
}

/// The flags of a command line: each by its name, with its value where it is
/// not a switch.
pub type Given = Seq<(Seq<char>, Option<Seq<char>>)>;

/// The switches.
pub open spec fn is_switch_name(name: Seq<char>) -> bool {
    name == "allow-http"@ || name == "virtual-hosted"@ || name == "in-memory"@ || name == "deep"@
        || name == "publisher-quiescent"@
}

fn switch_name(name: &str) -> (r: bool)
    ensures
        r == is_switch_name(name@),
{
    same(name, "allow-http") || same(name, "virtual-hosted") || same(name, "in-memory") || same(
        name,
        "deep",
    ) || same(name, "publisher-quiescent")
}

/// The flags in the arguments from position `i` on, behind those before.
pub open spec fn flags_from(args: Seq<Seq<char>>, i: int, before: Given) -> Result<
    Given,
    FlagErrorView,
>
    decreases args.len() - i,
{
    if i < 0 || i >= args.len() {
        Ok(before)
    } else {
        match strip_prefix(args[i], "--"@) {
            None => Err(FlagErrorView::Unexpected(args[i])),
            Some(name) => if is_switch_name(name) {
                flags_from(args, i + 1, before.push((name, None)))
            } else if i + 1 >= args.len() {
                Err(FlagErrorView::NeedsValue(name))
            } else {
                flags_from(args, i + 2, before.push((name, Some(args[i + 1]))))
            },
        }
    }
}

/// The flags that have not been taken yet.
#[derive(Debug)]
pub struct Flags {
    pub pairs: Vec<(String, Option<String>)>,
}

pub open spec fn pairs_view(pairs: Seq<(String, Option<String>)>) -> Given {
    Seq::new(pairs.len(), |i: int| (pairs[i].0@, opt_view(pairs[i].1)))
}

impl View for Flags {
    type V = Given;

    open spec fn view(&self) -> Given {
        pairs_view(self.pairs@)
    }
}

/// The first flag of the given name, or the number of flags.
pub open spec fn named_at(given: Given, name: Seq<char>, i: int) -> int
    decreases given.len() - i,
{
    if i < 0 || i >= given.len() {
        given.len() as int
    } else if given[i].0 == name {
        i
    } else {
        named_at(given, name, i + 1)
    }
}

/// The first switch of the given name, or the number of flags.
pub open spec fn switch_at(given: Given, name: Seq<char>, i: int) -> int
    decreases given.len() - i,
{
    if i < 0 || i >= given.len() {
        given.len() as int
    } else if given[i].0 == name && given[i].1.is_none() {
        i
    } else {
        switch_at(given, name, i + 1)
    }
}

/// The flags without the one at position `i`.
pub open spec fn without(given: Given, i: int) -> Given {
    if 0 <= i < given.len() {
        given.remove(i)
    } else {
        given
    }
}

/// The value of the first flag of a name.
pub open spec fn value_of(given: Given, name: Seq<char>) -> Option<Seq<char>> {
    let i = named_at(given, name, 0);
    if i < given.len() {
        given[i].1
    } else {
        None
    }
}

/// What is left once the first flag of a name has been taken.
pub open spec fn after_value(given: Given, name: Seq<char>) -> Given {
    without(given, named_at(given, name, 0))
}

/// Whether a switch is given.
pub open spec fn is_given(given: Given, name: Seq<char>) -> bool {
    switch_at(given, name, 0) < given.len()
}

/// What is left once a switch has been taken.
pub open spec fn after_switch(given: Given, name: Seq<char>) -> Given {
    without(given, switch_at(given, name, 0))
}

/// The outcome of reading something from the flags.
pub open spec fn flag_result<T: View>(r: Result<T, FlagError>) -> Result<T::V, FlagErrorView> {
    match r {
        Ok(value) => Ok(value@),
        Err(e) => Err(e@),
    }
}

impl Flags {
    /// Reads the flags of a command line.
    pub fn parse(args: &[String]) -> (r: Result<Flags, FlagError>)
        ensures
            flag_result(r) == flags_from(texts(args@), 0, seq![]),
    {
        let n: usize = args.len();
        let ghost all = texts(args@);
        let mut pairs: Vec<(String, Option<String>)> = Vec::new();
        let mut i: usize = 0;
        assert(pairs_view(pairs@) =~= Seq::<(Seq<char>, Option<Seq<char>>)>::empty());
        while i < n
            invariant
                i <= n == args@.len(),
                all == texts(args@),
                flags_from(all, i as int, pairs_view(pairs@)) == flags_from(all, 0, seq![]),
            decreases n - i,
        {
            let ghost before = pairs@;
            assert(all[i as int] == args@[i as int]@);
            let name = match text_after(args[i].as_str(), "--") {
                Some(name) => name,
                None => {
                    return Err(FlagError::Unexpected(copy(args[i].as_str())));
                },
            };
            if switch_name(name.as_str()) {
                let ghost flag = (name@, None::<Seq<char>>);
                pairs.push((name, None));
                assert(pairs_view(pairs@) =~= pairs_view(before).push(flag));
                i += 1;
            } else if n - i < 2 {
                return Err(FlagError::NeedsValue(name));
            } else {
                assert(all[i + 1] == args@[i + 1]@);
                let value = copy(args[i + 1].as_str());
                let ghost flag = (name@, Some(value@));
                pairs.push((name, Some(value)));
                assert(pairs_view(pairs@) =~= pairs_view(before).push(flag));
                i += 2;
            }
        }
        Ok(Flags { pairs })
    }

    /// Takes the first flag of a name and gives its value.
    pub fn take(&mut self, name: &str) -> (r: Option<String>)
        ensures
            opt_view(r) == value_of(old(self)@, name@),
            final(self)@ == after_value(old(self)@, name@),
    {
        let mut i: usize = 0;
        let ghost given = self@;
        while i < self.pairs.len()
            invariant
                i <= self.pairs@.len(),
                given == self@,
                given == old(self)@,
                named_at(given, name@, i as int) == named_at(given, name@, 0),
            decreases self.pairs@.len() - i,
        {
            if same(self.pairs[i].0.as_str(), name) {
                let (_, value) = self.pairs.remove(i);
                assert(self@ =~= given.remove(i as int));
                return value;
            }
            i += 1;
        }
        None
    }

    /// Takes a switch and says whether it was given.
    pub fn has(&mut self, name: &str) -> (r: bool)
        ensures
            r == is_given(old(self)@, name@),
            final(self)@ == after_switch(old(self)@, name@),
    {
        let mut i: usize = 0;
        let ghost given = self@;
        while i < self.pairs.len()
            invariant
                i <= self.pairs@.len(),
                given == self@,
                given == old(self)@,
                switch_at(given, name@, i as int) == switch_at(given, name@, 0),
            decreases self.pairs@.len() - i,
        {
            if same(self.pairs[i].0.as_str(), name) && self.pairs[i].1.is_none() {
                self.pairs.remove(i);
                assert(self@ =~= given.remove(i as int));
                return true;
            }
            i += 1;
        }
        false
    }

    /// Refuses what no one has taken.
    pub fn finish(&self, known: &str) -> (r: Result<(), FlagError>)
        ensures
            match r {
                Ok(_) => self@.len() == 0,
                Err(e) => self@.len() > 0 && e@ == (FlagErrorView::Unknown {
                    name: self@[0].0,
                    known: known@,
                }),
            },
    {
        if self.pairs.len() == 0 {
            Ok(())
        } else {
            Err(FlagError::Unknown { name: copy(self.pairs[0].0.as_str()), known: copy(known) })
        }
    }
}

// ---------------------------------------------------------------------- numbers

/// The number of a flag, where the flag is given.
pub open spec fn u64_flag(given: Given, name: Seq<char>) -> Result<Option<u64>, FlagErrorView> {
    match value_of(given, name) {
        None => Ok(None),
        Some(value) => match u64_of(value) {
            Some(n) => Ok(Some(n)),
            None => Err(FlagErrorView::NotANumber { name, value }),
        },
    }
}

/// The number of a flag that counts something in memory.
pub open spec fn usize_flag(given: Given, name: Seq<char>) -> Result<Option<usize>, FlagErrorView> {
    match value_of(given, name) {
        None => Ok(None),
        Some(value) => match usize_of(value) {
            Some(n) => Ok(Some(n)),
            None => Err(FlagErrorView::NotANumber { name, value }),
        },
    }
}

fn parse_u64(flags: &mut Flags, name: &str) -> (r: Result<Option<u64>, FlagError>)
    ensures
        final(flags)@ == after_value(old(flags)@, name@),
        match r {
            Ok(n) => u64_flag(old(flags)@, name@) == Ok::<Option<u64>, FlagErrorView>(n),
            Err(e) => u64_flag(old(flags)@, name@) == Err::<Option<u64>, FlagErrorView>(e@),
        },
{
    match flags.take(name) {
        None => Ok(None),
        Some(value) => match read_u64(value.as_str()) {
            Some(n) => Ok(Some(n)),
            None => Err(FlagError::NotANumber { name: copy(name), value }),
        },
    }
}

fn parse_usize(flags: &mut Flags, name: &str) -> (r: Result<Option<usize>, FlagError>)
    ensures
        final(flags)@ == after_value(old(flags)@, name@),
        match r {
            Ok(n) => usize_flag(old(flags)@, name@) == Ok::<Option<usize>, FlagErrorView>(n),
            Err(e) => usize_flag(old(flags)@, name@) == Err::<Option<usize>, FlagErrorView>(e@),
        },
{
    match flags.take(name) {
        None => Ok(None),
        Some(value) => match read_usize(value.as_str()) {
            Some(n) => Ok(Some(n)),
            None => Err(FlagError::NotANumber { name: copy(name), value }),
        },
    }
}

fn require(flags: &mut Flags, name: &str, words: &str) -> (r: Result<String, FlagError>)
    ensures
        final(flags)@ == after_value(old(flags)@, name@),
        match r {
            Ok(value) => value_of(old(flags)@, name@) == Some(value@),
            Err(e) => value_of(old(flags)@, name@).is_none() && e@ == FlagErrorView::Required(
                words@,
            ),
        },
{
    match flags.take(name) {
        Some(value) => Ok(value),
        None => Err(FlagError::Required(copy(words))),
    }
}

// ---------------------------------------------------------------------- backend

/// Where snapshots are kept.
#[derive(Debug)]
pub enum Backend {
    /// Nowhere: for trying things out.
    InMemory,
    S3 {
        bucket: String,
        region: Option<String>,
        allow_http: bool,
        force_path_style: bool,
        endpoint: Option<String>,
    },
}

pub enum BackendView {
    InMemory,
    S3 {
        bucket: Seq<char>,
        region: Option<Seq<char>>,
        allow_http: bool,
        force_path_style: bool,
        endpoint: Option<Seq<char>>,
    },
}

impl View for Backend {
    type V = BackendView;

    open spec fn view(&self) -> BackendView {
        match self {
            Backend::InMemory => BackendView::InMemory,
            Backend::S3 { bucket, region, allow_http, force_path_style, endpoint } => {
                BackendView::S3 {
                    bucket: bucket@,
                    region: opt_view(*region),
                    allow_http: *allow_http,
                    force_path_style: *force_path_style,
                    endpoint: opt_view(*endpoint),
                }
            },
        }
    }
}

/// How the archive is reached; what is `None` keeps its default.
#[derive(Debug)]
pub struct RemoteOptions {
    pub backend: Backend,
    pub prefix: Option<String>,
    pub store_identity: Option<String>,
    /// At least one second.
    pub op_timeout_secs: Option<u64>,
    pub max_retries: Option<usize>,
    pub cache_bytes: Option<usize>,
    pub expected_manifest_sha256: Option<String>,
}

pub struct RemoteView {
    pub backend: BackendView,
    pub prefix: Option<Seq<char>>,
    pub store_identity: Option<Seq<char>>,
    pub op_timeout_secs: Option<u64>,
    pub max_retries: Option<usize>,
    pub cache_bytes: Option<usize>,
    pub expected_manifest_sha256: Option<Seq<char>>,
}

impl View for RemoteOptions {
    type V = RemoteView;

    open spec fn view(&self) -> RemoteView {
        RemoteView {
            backend: self.backend@,
            prefix: opt_view(self.prefix),
            store_identity: opt_view(self.store_identity),
            op_timeout_secs: self.op_timeout_secs,
            max_retries: self.max_retries,
            cache_bytes: self.cache_bytes,
            expected_manifest_sha256: opt_view(self.expected_manifest_sha256),
        }
    }
}

/// The backend that the flags name, and the flags that are left.
pub open spec fn backend_of(given: Given) -> (Result<BackendView, FlagErrorView>, Given) {
    let g1 = after_switch(given, "in-memory"@);
    let g2 = after_value(g1, "bucket"@);
    let g3 = after_value(g2, "endpoint"@);
    let g4 = after_value(g3, "region"@);
    let g5 = after_switch(g4, "allow-http"@);
    let g6 = after_switch(g5, "virtual-hosted"@);
    if is_given(given, "in-memory"@) {
        (Ok(BackendView::InMemory), g1)
    } else {
        match value_of(g1, "bucket"@) {
            None => (
                Err(
                    FlagErrorView::Required(
                        "--bucket is required (or --in-memory for testing)"@,
                    ),
                ),
                g2,
            ),
            Some(bucket) => (
                Ok(
                    BackendView::S3 {
                        bucket,
                        region: value_of(g3, "region"@),
                        allow_http: is_given(g4, "allow-http"@),
                        force_path_style: !is_given(g5, "virtual-hosted"@),
                        endpoint: value_of(g2, "endpoint"@),
                    },
                ),
                g6,
            ),
        }
    }
}

fn read_backend(flags: &mut Flags) -> (r: Result<Backend, FlagError>)
    ensures
        (flag_result(r), final(flags)@) == backend_of(old(flags)@),
{
    if flags.has("in-memory") {
        return Ok(Backend::InMemory);
    }
    let bucket = match require(
        flags,
        "bucket",
        "--bucket is required (or --in-memory for testing)",
    ) {
        Ok(bucket) => bucket,
        Err(e) => {
            return Err(e);
        },
    };
    let endpoint = flags.take("endpoint");
    let region = flags.take("region");
    let allow_http = flags.has("allow-http");
    let force_path_style = !flags.has("virtual-hosted");
    Ok(Backend::S3 { bucket, region, allow_http, force_path_style, endpoint })
}

pub open spec fn at_least_one(n: Option<u64>) -> Option<u64> {
    match n {
        Some(n) => Some(
            if n == 0 {
                1
            } else {
                n
            },
        ),
        None => None,
    }
}

/// Mebibytes in bytes, no more than the machine can count.
pub open spec fn mebibytes(n: Option<usize>) -> Option<usize> {
    match n {
        Some(n) => Some(
            if n * 1_048_576 <= usize::MAX {
                (n * 1_048_576) as usize
            } else {
                usize::MAX
            },
        ),
        None => None,
    }
}

/// How the archive is reached according to the flags, and the flags that are
/// left.
#[verifier::opaque]
pub open spec fn remote_of(given: Given) -> (Result<RemoteView, FlagErrorView>, Given) {
    let (backend, g0) = backend_of(given);
    let g1 = after_value(g0, "prefix"@);
    let g2 = after_value(g1, "store-id"@);
    let g3 = after_value(g2, "op-timeout-secs"@);
    let g4 = after_value(g3, "retries"@);
    let g5 = after_value(g4, "cache-mb"@);
    let g6 = after_value(g5, "expect-manifest-sha"@);
    match backend {
        Err(e) => (Err(e), g0),
        Ok(backend) => match u64_flag(g2, "op-timeout-secs"@) {
            Err(e) => (Err(e), g3),
            Ok(seconds) => match usize_flag(g3, "retries"@) {
                Err(e) => (Err(e), g4),
                Ok(retries) => match usize_flag(g4, "cache-mb"@) {
                    Err(e) => (Err(e), g5),
                    Ok(cache) => (
                        Ok(
                            RemoteView {
                                backend,
                                prefix: value_of(g0, "prefix"@),
                                store_identity: value_of(g1, "store-id"@),
                                op_timeout_secs: at_least_one(seconds),
                                max_retries: retries,
                                cache_bytes: mebibytes(cache),
                                expected_manifest_sha256: value_of(g5, "expect-manifest-sha"@),
                            },
                        ),
                        g6,
                    ),
                },
            },
        },
    }
}

fn in_bytes(n: Option<usize>) -> (r: Option<usize>)
    ensures
        r == mebibytes(n),
{
    match n {
        Some(n) => {
            if n <= usize::MAX / 1_048_576 {
                Some(n * 1_048_576)
            } else {
                Some(usize::MAX)
            }
        },
        None => None,
    }
}

/// Reads how the archive is reached.
pub fn remote_from(flags: &mut Flags) -> (r: Result<RemoteOptions, FlagError>)
    ensures
        (flag_result(r), final(flags)@) == remote_of(old(flags)@),
{
    proof {
        reveal(remote_of);
    }
    let backend = match read_backend(flags) {
        Ok(backend) => backend,
        Err(e) => {
            return Err(e);
        },
    };
    let prefix = flags.take("prefix");
    let store_identity = flags.take("store-id");
    let seconds = match parse_u64(flags, "op-timeout-secs") {
        Ok(seconds) => seconds,
        Err(e) => {
            return Err(e);
        },
    };
    let op_timeout_secs = match seconds {
        Some(n) => Some(
            if n == 0 {
                1
            } else {
                n
            },
        ),
        None => None,
    };
    let max_retries = match parse_usize(flags, "retries") {
        Ok(retries) => retries,
        Err(e) => {
            return Err(e);
        },
    };
    let cache = match parse_usize(flags, "cache-mb") {
        Ok(cache) => cache,
        Err(e) => {
            return Err(e);
        },
    };
    let expected_manifest_sha256 = flags.take("expect-manifest-sha");
    Ok(
        RemoteOptions {
            backend,
            prefix,
            store_identity,
            op_timeout_secs,
            max_retries,
            cache_bytes: in_bytes(cache),
            expected_manifest_sha256,
        },
    )
}

// ----------------------------------------------------------------------- filter

/// What is left once the textual filters have been taken.
pub open spec fn after_texts(given: Given) -> Given {
    let g1 = after_value(given, "service"@);
    let g2 = after_value(g1, "name"@);
    let g3 = after_value(g2, "status"@);
    let g4 = after_value(g3, "tenant"@);
    let g5 = after_value(g4, "content"@);
    after_value(g5, "session"@)
}

/// The textual filters.
pub open spec fn text_filters(given: Given) -> FilterView {
    let g1 = after_value(given, "service"@);
    let g2 = after_value(g1, "name"@);
    let g3 = after_value(g2, "status"@);
    let g4 = after_value(g3, "tenant"@);
    let g5 = after_value(g4, "content"@);
    FilterView {
        service: value_of(given, "service"@),
        name: value_of(g1, "name"@),
        status: value_of(g2, "status"@),
        tenant: value_of(g3, "tenant"@),
        content: value_of(g4, "content"@),
        session: value_of(g5, "session"@),
        ..no_filter()
    }
}

/// The filter that the flags ask for, and the flags that are left.
#[verifier::opaque]
pub open spec fn filter_flags(given: Given) -> (Result<FilterView, FlagErrorView>, Given) {
    let g0 = after_texts(given);
    let g1 = after_value(g0, "since-ns"@);
    let g2 = after_value(g1, "until-ns"@);
    let g3 = after_value(g2, "min-duration-ns"@);
    let g4 = after_value(g3, "limit"@);
    let g5 = after_value(g4, "sort"@);
    match u64_flag(g0, "since-ns"@) {
        Err(e) => (Err(e), g1),
        Ok(since_ns) => match u64_flag(g1, "until-ns"@) {
            Err(e) => (Err(e), g2),
            Ok(until_ns) => match u64_flag(g2, "min-duration-ns"@) {
                Err(e) => (Err(e), g3),
                Ok(min_duration_ns) => match usize_flag(g3, "limit"@) {
                    Err(e) => (Err(e), g4),
                    Ok(limit) => {
                        let filter = FilterView {
                            since_ns,
                            until_ns,
                            min_duration_ns,
                            limit,
                            ..text_filters(given)
                        };
                        match value_of(g4, "sort"@) {
                            None => (Ok(filter), g5),
                            Some(name) => match sort_named(name) {
                                Some(sort) => (Ok(FilterView { sort: Some(sort), ..filter }), g5),
                                None => (Err(FlagErrorView::UnknownSort(name)), g5),
                            },
                        }
                    },
                },
            },
        },
    }
}

fn read_text_filters(flags: &mut Flags) -> (r: SpanFilter)
    ensures
        r@ == text_filters(old(flags)@),
        final(flags)@ == after_texts(old(flags)@),
{
    let mut filter = SpanFilter::any();
    filter.service = flags.take("service");
    filter.name = flags.take("name");
    filter.status = flags.take("status");
    filter.tenant = flags.take("tenant");
    filter.content = flags.take("content");
    filter.session = flags.take("session");
    filter
}

/// Reads the filter of a query.
pub fn filter_from(flags: &mut Flags) -> (r: Result<SpanFilter, FlagError>)
    ensures
        (flag_result(r), final(flags)@) == filter_flags(old(flags)@),
{
    proof {
        reveal(filter_flags);
    }
    let mut filter = read_text_filters(flags);
    match parse_u64(flags, "since-ns") {
        Ok(n) => filter.since_ns = n,
        Err(e) => return Err(e),
    }
    match parse_u64(flags, "until-ns") {
        Ok(n) => filter.until_ns = n,
        Err(e) => return Err(e),
    }
    match parse_u64(flags, "min-duration-ns") {
        Ok(n) => filter.min_duration_ns = n,
        Err(e) => return Err(e),
    }
    match parse_usize(flags, "limit") {
        Ok(n) => filter.limit = n,
        Err(e) => return Err(e),
    }
    if let Some(name) = flags.take("sort") {
        match SpanSort::parse(name.as_str()) {
            Some(sort) => filter.sort = Some(sort),
            None => return Err(FlagError::UnknownSort(name)),
        }
    }
    Ok(filter)
}

// --------------------------------------------------------------------- commands

/// What to do with the archive.
#[derive(Debug)]
pub enum Task {
    Publish { pin: String, snapshot: String },
    List,
    Inspect { snapshot: String },
    Verify { snapshot: String, deep: bool },
    Query { snapshot: String, deadline_ms: Option<u64>, filter: SpanFilter },
    Trace { snapshot: String, trace_id: String, tenant: Option<String> },
    Payload { snapshot: String, reference: String },
    Restore { snapshot: String, into: String },
    Delete { snapshot: String },
    Cleanup { snapshot: String, quiescent: bool },
}

pub enum TaskView {
    Publish { pin: Seq<char>, snapshot: Seq<char> },
    List,
    Inspect { snapshot: Seq<char> },
    Verify { snapshot: Seq<char>, deep: bool },
    Query { snapshot: Seq<char>, deadline_ms: Option<u64>, filter: FilterView },
    Trace { snapshot: Seq<char>, trace_id: Seq<char>, tenant: Option<Seq<char>> },
    Payload { snapshot: Seq<char>, reference: Seq<char> },
    Restore { snapshot: Seq<char>, into: Seq<char> },
    Delete { snapshot: Seq<char> },
    Cleanup { snapshot: Seq<char>, quiescent: bool },
}

impl View for Task {
    type V = TaskView;

    open spec fn view(&self) -> TaskView {
        match self {
            Task::Publish { pin, snapshot } => TaskView::Publish { pin: pin@, snapshot: snapshot@ },
            Task::List => TaskView::List,
            Task::Inspect { snapshot } => TaskView::Inspect { snapshot: snapshot@ },
            Task::Verify { snapshot, deep } => TaskView::Verify { snapshot: snapshot@, deep: *deep },
            Task::Query { snapshot, deadline_ms, filter } => TaskView::Query {
                snapshot: snapshot@,
                deadline_ms: *deadline_ms,
                filter: filter@,
            },
            Task::Trace { snapshot, trace_id, tenant } => TaskView::Trace {
                snapshot: snapshot@,
                trace_id: trace_id@,
                tenant: opt_view(*tenant),
            },
            Task::Payload { snapshot, reference } => TaskView::Payload {
                snapshot: snapshot@,
                reference: reference@,
            },
            Task::Restore { snapshot, into } => TaskView::Restore {
                snapshot: snapshot@,
                into: into@,
            },
            Task::Delete { snapshot } => TaskView::Delete { snapshot: snapshot@ },
            Task::Cleanup { snapshot, quiescent } => TaskView::Cleanup {
                snapshot: snapshot@,
                quiescent: *quiescent,
            },
        }
    }
}

/// The commands that work on the archive.
#[derive(Clone, Copy, Debug, PartialEq, Eq, Structural)]
pub enum Verb {
    Publish,
    List,
    Inspect,
    Verify,
    Query,
    Trace,
    Payload,
    Restore,
    Delete,
    Cleanup,
}

pub open spec fn verb_named(name: Seq<char>) -> Option<Verb> {
    if name == "publish"@ {
        Some(Verb::Publish)
    } else if name == "list"@ {
        Some(Verb::List)
    } else if name == "inspect"@ {
        Some(Verb::Inspect)
    } else if name == "verify"@ {
        Some(Verb::Verify)
    } else if name == "query"@ {
        Some(Verb::Query)
    } else if name == "trace"@ {
        Some(Verb::Trace)
    } else if name == "payload"@ {
        Some(Verb::Payload)
    } else if name == "restore"@ {
        Some(Verb::Restore)
    } else if name == "delete"@ {
        Some(Verb::Delete)
    } else if name == "cleanup"@ {
        Some(Verb::Cleanup)
    } else {
        None
    }
}

fn read_verb(name: &str) -> (r: Option<Verb>)
    ensures
        r == verb_named(name@),
{
    if same(name, "publish") {
        Some(Verb::Publish)
    } else if same(name, "list") {
        Some(Verb::List)
    } else if same(name, "inspect") {
        Some(Verb::Inspect)
    } else if same(name, "verify") {
        Some(Verb::Verify)
    } else if same(name, "query") {
        Some(Verb::Query)
    } else if same(name, "trace") {
        Some(Verb::Trace)
    } else if same(name, "payload") {
        Some(Verb::Payload)
    } else if same(name, "restore") {
        Some(Verb::Restore)
    } else if same(name, "delete") {
        Some(Verb::Delete)
    } else if same(name, "cleanup") {
        Some(Verb::Cleanup)
    } else {
        None
    }
}

/// The flags that a command knows, in words.
pub open spec fn known_to(verb: Verb) -> Seq<char> {
    match verb {
        Verb::Publish => "--pin --snapshot + backend options"@,
        Verb::List => "backend options"@,
        Verb::Inspect => "--snapshot + backend options"@,
        Verb::Verify => "--snapshot [--deep] + backend options"@,
        Verb::Query => "--snapshot [filters] + backend options"@,
        Verb::Trace => "--snapshot --trace-id [--tenant] + backend options"@,
        Verb::Payload => "--snapshot --ref + backend options"@,
        Verb::Restore => "--snapshot --into + backend options"@,
        Verb::Delete => "--snapshot + backend options"@,
        Verb::Cleanup => "--snapshot [--publisher-quiescent] + backend options"@,
    }
}

fn known_flags(verb: Verb) -> (r: &'static str)
    ensures
        r@ == known_to(verb),
{
    match verb {
        Verb::Publish => "--pin --snapshot + backend options",
        Verb::List => "backend options",
        Verb::Inspect => "--snapshot + backend options",
        Verb::Verify => "--snapshot [--deep] + backend options",
        Verb::Query => "--snapshot [filters] + backend options",
        Verb::Trace => "--snapshot --trace-id [--tenant] + backend options",
        Verb::Payload => "--snapshot --ref + backend options",
        Verb::Restore => "--snapshot --into + backend options",
        Verb::Delete => "--snapshot + backend options",
        Verb::Cleanup => "--snapshot [--publisher-quiescent] + backend options",
    }
}

/// A flag that has to be given.
pub open spec fn required(given: Given, name: Seq<char>, words: Seq<char>) -> Result<
    Seq<char>,
    FlagErrorView,
> {
    match value_of(given, name) {
        Some(value) => Ok(value),
        None => Err(FlagErrorView::Required(words)),
    }
}

/// What a command with a snapshot and nothing, or one more flag, asks for.
pub open spec fn snapshot_task(verb: Verb, snapshot: Seq<char>, given: Given) -> (
    Result<TaskView, FlagErrorView>,
    Given,
) {
    match verb {
        Verb::Inspect => (Ok(TaskView::Inspect { snapshot }), given),
        Verb::Verify => (
            Ok(TaskView::Verify { snapshot, deep: is_given(given, "deep"@) }),
            after_switch(given, "deep"@),
        ),
        Verb::Query => {
            let g1 = after_value(given, "deadline-ms"@);
            match u64_flag(given, "deadline-ms"@) {
                Err(e) => (Err(e), g1),
                Ok(deadline_ms) => match filter_flags(g1) {
                    (Err(e), g2) => (Err(e), g2),
                    (Ok(filter), g2) => (Ok(TaskView::Query { snapshot, deadline_ms, filter }), g2),
                },
            }
        },
        Verb::Trace => {
            let g1 = after_value(given, "trace-id"@);
            match required(given, "trace-id"@, "--trace-id is required"@) {
                Err(e) => (Err(e), g1),
                Ok(trace_id) => (
                    Ok(TaskView::Trace { snapshot, trace_id, tenant: value_of(g1, "tenant"@) }),
                    after_value(g1, "tenant"@),
                ),
            }
        },
        Verb::Payload => (
            match required(given, "ref"@, "--ref sha256/<hex> is required"@) {
                Err(e) => Err(e),
                Ok(reference) => Ok(TaskView::Payload { snapshot, reference }),
            },
            after_value(given, "ref"@),
        ),
        Verb::Restore => (
            match required(given, "into"@, "--into <NEW DIR> is required"@) {
                Err(e) => Err(e),
                Ok(into) => Ok(TaskView::Restore { snapshot, into }),
            },
            after_value(given, "into"@),
        ),
        Verb::Cleanup => (
            Ok(
                TaskView::Cleanup {
                    snapshot,
                    quiescent: is_given(given, "publisher-quiescent"@),
                },
            ),
            after_switch(given, "publisher-quiescent"@),
        ),
        _ => (Ok(TaskView::Delete { snapshot }), given),
    }
}

/// What a command on the archive asks for, and the flags that are left.
pub open spec fn task_of(verb: Verb, given: Given) -> (Result<TaskView, FlagErrorView>, Given) {
    if verb == Verb::List {
        (Ok(TaskView::List), given)
    } else if verb == Verb::Publish {
        let g1 = after_value(given, "pin"@);
        let g2 = after_value(g1, "snapshot"@);
        match required(given, "pin"@, "--pin <DIR> is required"@) {
            Err(e) => (Err(e), g1),
            Ok(pin) => match required(g1, "snapshot"@, "--snapshot is required"@) {
                Err(e) => (Err(e), g2),
                Ok(snapshot) => (Ok(TaskView::Publish { pin, snapshot }), g2),
            },
        }
    } else {
        let g1 = after_value(given, "snapshot"@);
        match required(given, "snapshot"@, "--snapshot is required"@) {
            Err(e) => (Err(e), g1),
            Ok(snapshot) => snapshot_task(verb, snapshot, g1),
        }
    }
}

fn read_snapshot_task(verb: Verb, snapshot: String, flags: &mut Flags) -> (r: Result<Task, FlagError>)
    ensures
        (flag_result(r), final(flags)@) == snapshot_task(verb, snapshot@, old(flags)@),
{
    match verb {
        Verb::Inspect => Ok(Task::Inspect { snapshot }),
        Verb::Verify => {
            let deep = flags.has("deep");
            Ok(Task::Verify { snapshot, deep })
        },
        Verb::Query => {
            let deadline_ms = match parse_u64(flags, "deadline-ms") {
                Ok(n) => n,
                Err(e) => {
                    return Err(e);
                },
            };
            match filter_from(flags) {
                Ok(filter) => Ok(Task::Query { snapshot, deadline_ms, filter }),
                Err(e) => Err(e),
            }
        },
        Verb::Trace => {
            let trace_id = match require(flags, "trace-id", "--trace-id is required") {
                Ok(id) => id,
                Err(e) => {
                    return Err(e);
                },
            };
            let tenant = flags.take("tenant");
            Ok(Task::Trace { snapshot, trace_id, tenant })
        },
        Verb::Payload => match require(flags, "ref", "--ref sha256/<hex> is required") {
            Ok(reference) => Ok(Task::Payload { snapshot, reference }),
            Err(e) => Err(e),
        },
        Verb::Restore => match require(flags, "into", "--into <NEW DIR> is required") {
            Ok(into) => Ok(Task::Restore { snapshot, into }),
            Err(e) => Err(e),
        },
        Verb::Cleanup => {
            let quiescent = flags.has("publisher-quiescent");
            Ok(Task::Cleanup { snapshot, quiescent })
        },
        _ => Ok(Task::Delete { snapshot }),
    }
}

fn read_task(verb: Verb, flags: &mut Flags) -> (r: Result<Task, FlagError>)
    ensures
        (flag_result(r), final(flags)@) == task_of(verb, old(flags)@),
{
    if verb == Verb::List {
        return Ok(Task::List);
    }
    if verb == Verb::Publish {
        let pin = match require(flags, "pin", "--pin <DIR> is required") {
            Ok(pin) => pin,
            Err(e) => {
                return Err(e);
            },
        };
        return match require(flags, "snapshot", "--snapshot is required") {
            Ok(snapshot) => Ok(Task::Publish { pin, snapshot }),
            Err(e) => Err(e),
        };
    }
    match require(flags, "snapshot", "--snapshot is required") {
        Ok(snapshot) => read_snapshot_task(verb, snapshot, flags),
        Err(e) => Err(e),
    }
}

/// What a command line asks for.
#[derive(Debug)]
pub enum ObjectCommand {
    Help,
    Version,
    /// Pin a stopped store.
    Pin { data_dir: String, label: String },
    /// Work on the archive. A flag left over is an error only once the archive
    /// has been reached.
    Archive { task: Task, remote: RemoteOptions, leftover: Option<FlagError> },
}

pub enum ObjectView {
    Help,
    Version,
    Pin { data_dir: Seq<char>, label: Seq<char> },
    Archive { task: TaskView, remote: RemoteView, leftover: Option<FlagErrorView> },
}

impl View for ObjectCommand {
    type V = ObjectView;

    open spec fn view(&self) -> ObjectView {
        match self {
            ObjectCommand::Help => ObjectView::Help,
            ObjectCommand::Version => ObjectView::Version,
            ObjectCommand::Pin { data_dir, label } => ObjectView::Pin {
                data_dir: data_dir@,
                label: label@,
            },
            ObjectCommand::Archive { task, remote, leftover } => ObjectView::Archive {
                task: task@,
                remote: remote@,
                leftover: match leftover {
                    Some(e) => Some(e@),
                    None => None,
                },
            },
        }
    }
}

/// The first flag that is left, as an error.
pub open spec fn leftover_of(given: Given, known: Seq<char>) -> Option<FlagErrorView> {
    if given.len() > 0 {
        Some(FlagErrorView::Unknown { name: given[0].0, known })
    } else {
        None
    }
}

/// What a command on the archive asks for.
pub open spec fn archive_of(verb: Verb, given: Given) -> Result<ObjectView, FlagErrorView> {
    match task_of(verb, given) {
        (Err(e), _) => Err(e),
        (Ok(task), g1) => match remote_of(g1) {
            (Err(e), _) => Err(e),
            (Ok(remote), g2) => Ok(
                ObjectView::Archive { task, remote, leftover: leftover_of(g2, known_to(verb)) },
            ),
        },
    }
}

/// What the `pin` command asks for.
pub open spec fn pin_of(given: Given) -> Result<ObjectView, FlagErrorView> {
    let g1 = after_value(given, "data-dir"@);
    let g2 = after_value(g1, "label"@);
    match required(given, "data-dir"@, "--data-dir is required"@) {
        Err(e) => Err(e),
        Ok(data_dir) => match required(g1, "label"@, "--label is required"@) {
            Err(e) => Err(e),
            Ok(label) => match leftover_of(g2, "--data-dir --label"@) {
                Some(e) => Err(e),
                None => Ok(ObjectView::Pin { data_dir, label }),
            },
        },
    }
}

/// What a command with its flags asks for.
pub open spec fn object_command(command: Seq<char>, given: Given) -> Result<
    ObjectView,
    FlagErrorView,
> {
    if command == "help"@ || command == "--help"@ || command == "-h"@ {
        Ok(ObjectView::Help)
    } else if command == "version"@ || command == "--version"@ || command == "-V"@ {
        Ok(ObjectView::Version)
    } else if command == "pin"@ {
        pin_of(given)
    } else {
        match verb_named(command) {
            Some(verb) => archive_of(verb, given),
            None => Err(FlagErrorView::UnknownCommand(command)),
        }
    }
}

/// What a command line asks for.
pub open spec fn object_plan(args: Seq<Seq<char>>) -> Result<ObjectView, FlagErrorView> {
    if args.len() == 0 {
        Err(FlagErrorView::NoCommand)
    } else {
        match flags_from(args.skip(1), 0, seq![]) {
            Err(e) => Err(e),
            Ok(given) => object_command(args[0], given),
        }
    }
}

fn read_archive(verb: Verb, flags: Flags) -> (r: Result<ObjectCommand, FlagError>)
    ensures
        flag_result(r) == archive_of(verb, flags@),
{
    let mut flags = flags;
    let task = match read_task(verb, &mut flags) {
        Ok(task) => task,
        Err(e) => {
            return Err(e);
        },
    };
    let remote = match remote_from(&mut flags) {
        Ok(remote) => remote,
        Err(e) => {
            return Err(e);
        },
    };
    let leftover = match flags.finish(known_flags(verb)) {
        Ok(_) => None,
        Err(e) => Some(e),
    };
    Ok(ObjectCommand::Archive { task, remote, leftover })
}

fn read_pin(flags: Flags) -> (r: Result<ObjectCommand, FlagError>)
    ensures
        flag_result(r) == pin_of(flags@),
{
    let mut flags = flags;
    let data_dir = match require(&mut flags, "data-dir", "--data-dir is required") {
        Ok(dir) => dir,
        Err(e) => {
            return Err(e);
        },
    };
    let label = match require(&mut flags, "label", "--label is required") {
        Ok(label) => label,
        Err(e) => {
            return Err(e);
        },
    };
    match flags.finish("--data-dir --label") {
        Ok(_) => Ok(ObjectCommand::Pin { data_dir, label }),
        Err(e) => Err(e),
    }
}

/// Reads the command line of the archive tool.
pub fn plan(args: &[String]) -> (r: Result<ObjectCommand, FlagError>)
    ensures
        flag_result(r) == object_plan(texts(args@)),
{
    let n: usize = args.len();
    if n == 0 {
        return Err(FlagError::NoCommand);
    }
    assert(texts(args@)[0] == args@[0]@);
    let rest = &args[1..n];
    assert(texts(rest@) =~= texts(args@).skip(1));
    let flags = match Flags::parse(rest) {
        Ok(flags) => flags,
        Err(e) => {
            return Err(e);
        },
    };
    let command = args[0].as_str();
    if same(command, "help") || same(command, "--help") || same(command, "-h") {
        Ok(ObjectCommand::Help)
    } else if same(command, "version") || same(command, "--version") || same(command, "-V") {
        Ok(ObjectCommand::Version)
    } else if same(command, "pin") {
        read_pin(flags)
    } else {
        match read_verb(command) {
            Some(verb) => read_archive(verb, flags),
            None => Err(FlagError::UnknownCommand(copy(command))),
        }
    }
}

// ------------------------------------------------------------------------- laws

/// Taking a flag leaves every flag of another name as it was.
pub proof fn law_taking_a_flag_spares_the_others(given: Given, name: Seq<char>, other: Seq<char>)
    requires
        name != other,
    ensures
        value_of(after_value(given, name), other) == value_of(given, other),
{
    lemma_named(given, name, 0);
    let i = named_at(given, name, 0);
    lemma_named(given, other, 0);
    let k = named_at(given, other, 0);
    if i < given.len() {
        lemma_removed(given, i, other, 0);
        if k < i {
            assert(given.remove(i)[k] == given[k]);
        } else if k < given.len() {
            assert(given.remove(i)[k - 1] == given[k]);
        }
    }
}

proof fn lemma_named(given: Given, name: Seq<char>, i: int)
    requires
        0 <= i <= given.len(),
    ensures
        i <= named_at(given, name, i) <= given.len(),
        named_at(given, name, i) < given.len() ==> given[named_at(given, name, i)].0 == name,
    decreases given.len() - i,
{
    if i < given.len() && given[i].0 != name {
        lemma_named(given, name, i + 1);
    }
}

proof fn lemma_removed(given: Given, at: int, other: Seq<char>, i: int)
    requires
        0 <= at < given.len(),
        given[at].0 != other,
        0 <= i <= given.len(),
    ensures
        i <= at ==> ({
            let rest = given.remove(at);
            let k = named_at(given, other, i);
            named_at(rest, other, i) == (if k < at {
                k
            } else {
                k - 1
            })
        }),
        i > at ==> named_at(given.remove(at), other, i - 1) == named_at(given, other, i) - 1,
    decreases given.len() - i,
{
    let rest = given.remove(at);
    lemma_named(given, other, i);
    if i < given.len() {
        if i < at {
            assert(rest[i] == given[i]);
            if given[i].0 != other {
                lemma_removed(given, at, other, i + 1);
            }
        } else if i == at {
            lemma_removed(given, at, other, i + 1);
            lemma_named(given, other, i + 1);
        } else {
            assert(rest[i - 1] == given[i]);
            if given[i].0 != other {
                lemma_removed(given, at, other, i + 1);
            }
        }
    }
}

proof fn lemma_flag_names()
    ensures
        "in-memory"@.len() == 9,
        "bucket"@.len() == 6 && "bucket"@[0] == 'b',
        "endpoint"@.len() == 8 && "endpoint"@[0] == 'e',
        "region"@.len() == 6 && "region"@[0] == 'r',
        "allow-http"@.len() == 10,
        "virtual-hosted"@.len() == 14,
        "prefix"@.len() == 6 && "prefix"@[0] == 'p',
        "store-id"@.len() == 8 && "store-id"@[0] == 's',
        "op-timeout-secs"@.len() == 15,
        "retries"@.len() == 7,
        "cache-mb"@.len() == 8 && "cache-mb"@[0] == 'c',
        "expect-manifest-sha"@.len() == 19,
{
    reveal_strlit("in-memory");
    reveal_strlit("bucket");
    reveal_strlit("endpoint");
    reveal_strlit("region");
    reveal_strlit("allow-http");
    reveal_strlit("virtual-hosted");
    reveal_strlit("prefix");
    reveal_strlit("store-id");
    reveal_strlit("op-timeout-secs");
    reveal_strlit("retries");
    reveal_strlit("cache-mb");
    reveal_strlit("expect-manifest-sha");
}

proof fn lemma_filter_names()
    ensures
        "service"@.len() == 7 && "service"@[0] == 's' && "service"@[2] == 'r',
        "name"@.len() == 4 && "name"@[0] == 'n',
        "status"@.len() == 6 && "status"@[0] == 's',
        "tenant"@.len() == 6 && "tenant"@[0] == 't',
        "content"@.len() == 7 && "content"@[0] == 'c',
        "session"@.len() == 7 && "session"@[0] == 's' && "session"@[2] == 's',
        "since-ns"@.len() == 8 && "since-ns"@[0] == 's' && "since-ns"@[1] == 'i',
        "until-ns"@.len() == 8 && "until-ns"@[0] == 'u',
        "min-duration-ns"@.len() == 15,
        "limit"@.len() == 5 && "limit"@[1] == 'i',
        "sort"@.len() == 4 && "sort"@[0] == 's',
        "deadline-ms"@.len() == 11,
        "snapshot"@.len() == 8 && "snapshot"@[0] == 's' && "snapshot"@[1] == 'n',
        "deep"@.len() == 4 && "deep"@[0] == 'd',
        "trace-id"@.len() == 8 && "trace-id"@[0] == 't',
        "ref"@.len() == 3 && "ref"@[0] == 'r',
        "into"@.len() == 4 && "into"@[0] == 'i',
        "publisher-quiescent"@.len() == 19,
        "pin"@.len() == 3 && "pin"@[0] == 'p',
        "data-dir"@.len() == 8 && "data-dir"@[0] == 'd',
        "label"@.len() == 5 && "label"@[1] == 'a',
{
    reveal_strlit("service");
    reveal_strlit("name");
    reveal_strlit("status");
    reveal_strlit("tenant");
    reveal_strlit("content");
    reveal_strlit("session");
    reveal_strlit("since-ns");
    reveal_strlit("until-ns");
    reveal_strlit("min-duration-ns");
    reveal_strlit("limit");
    reveal_strlit("sort");
    reveal_strlit("deadline-ms");
    reveal_strlit("snapshot");
    reveal_strlit("deep");
    reveal_strlit("trace-id");
    reveal_strlit("ref");
    reveal_strlit("into");
    reveal_strlit("publisher-quiescent");
    reveal_strlit("pin");
    reveal_strlit("data-dir");
    reveal_strlit("label");
}

proof fn lemma_commands()
    ensures
        "help"@.len() == 4 && "help"@[0] == 'h',
        "--help"@.len() == 6 && "--help"@[0] == '-',
        "-h"@.len() == 2 && "-h"@[1] == 'h',
        "version"@.len() == 7 && "version"@[0] == 'v',
        "--version"@.len() == 9,
        "-V"@.len() == 2 && "-V"@[1] == 'V',
        "pin"@.len() == 3,
        "publish"@.len() == 7 && "publish"@[0] == 'p' && "publish"@[1] == 'u',
        "list"@.len() == 4 && "list"@[0] == 'l',
        "inspect"@.len() == 7 && "inspect"@[0] == 'i',
        "verify"@.len() == 6 && "verify"@[0] == 'v',
        "query"@.len() == 5 && "query"@[0] == 'q',
        "trace"@.len() == 5 && "trace"@[0] == 't',
        "payload"@.len() == 7 && "payload"@[0] == 'p' && "payload"@[1] == 'a',
        "restore"@.len() == 7 && "restore"@[0] == 'r',
        "delete"@.len() == 6 && "delete"@[0] == 'd',
        "cleanup"@.len() == 7 && "cleanup"@[0] == 'c',
{
    reveal_strlit("help");
    reveal_strlit("--help");
    reveal_strlit("-h");
    reveal_strlit("version");
    reveal_strlit("--version");
    reveal_strlit("-V");
    reveal_strlit("pin");
    reveal_strlit("publish");
    reveal_strlit("list");
    reveal_strlit("inspect");
    reveal_strlit("verify");
    reveal_strlit("query");
    reveal_strlit("trace");
    reveal_strlit("payload");
    reveal_strlit("restore");
    reveal_strlit("delete");
    reveal_strlit("cleanup");
}

proof fn lemma_named_first(given: Given, name: Seq<char>, i: int)
    requires
        0 <= i <= given.len(),
    ensures
        i <= named_at(given, name, i) <= given.len(),
        named_at(given, name, i) < given.len() ==> given[named_at(given, name, i)].0 == name,
        forall|j: int| i <= j < named_at(given, name, i) ==> (#[trigger] given[j]).0 != name,
    decreases given.len() - i,
{
    if i < given.len() && given[i].0 != name {
        lemma_named_first(given, name, i + 1);
    }
}

proof fn lemma_switch_first(given: Given, name: Seq<char>, i: int)
    requires
        0 <= i <= given.len(),
    ensures
        i <= switch_at(given, name, i) <= given.len(),
        switch_at(given, name, i) < given.len() ==> given[switch_at(given, name, i)] == (
            name,
            None::<Seq<char>>,
        ),
        forall|j: int|
            i <= j < switch_at(given, name, i) ==> #[trigger] given[j] != (
                name,
                None::<Seq<char>>,
            ),
    decreases given.len() - i,
{
    if i < given.len() && !(given[i].0 == name && given[i].1.is_none()) {
        lemma_switch_first(given, name, i + 1);
    }
}

/// A flag's value is the one given first under its name, and to take it takes that
/// one away and leaves the rest as they stood.
pub proof fn law_a_flags_value(given: Given, name: Seq<char>)
    ensures
        (forall|j: int| 0 <= j < given.len() ==> (#[trigger] given[j]).0 != name) ==> value_of(
            given,
            name,
        ).is_none() && after_value(given, name) == given,
        (exists|j: int| 0 <= j < given.len() && (#[trigger] given[j]).0 == name) ==> exists|k: int|
            {
                &&& 0 <= k < given.len()
                &&& (#[trigger] given[k]).0 == name
                &&& forall|j: int| 0 <= j < k ==> (#[trigger] given[j]).0 != name
                &&& value_of(given, name) == given[k].1
                &&& after_value(given, name) == given.take(k) + given.skip(k + 1)
            },
{
    lemma_named_first(given, name, 0);
    let k = named_at(given, name, 0);
    if k < given.len() {
        assert(given.remove(k) =~= given.take(k) + given.skip(k + 1));
        assert(given[k].0 == name);
    }
}

/// A switch is on when it was given without a value, and to read it takes the
/// first such away and leaves the rest as they stood.
pub proof fn law_a_switch(given: Given, name: Seq<char>)
    ensures
        is_given(given, name) <==> given.contains((name, None)),
        !is_given(given, name) ==> after_switch(given, name) == given,
        is_given(given, name) ==> exists|k: int|
            {
                &&& 0 <= k < given.len()
                &&& #[trigger] given[k] == (name, None::<Seq<char>>)
                &&& after_switch(given, name) == given.take(k) + given.skip(k + 1)
            },
{
    lemma_switch_first(given, name, 0);
    let k = switch_at(given, name, 0);
    if k < given.len() {
        assert(given.remove(k) =~= given.take(k) + given.skip(k + 1));
        assert(given[k] == (name, None::<Seq<char>>));
    }
}

proof fn lemma_removal_spares(given: Given, at: int, other: Seq<char>)
    requires
        0 <= at < given.len(),
        given[at].0 != other,
    ensures
        value_of(given.remove(at), other) == value_of(given, other),
        is_given(given.remove(at), other) == is_given(given, other),
{
    let rest = given.remove(at);
    lemma_named(given, other, 0);
    let k = named_at(given, other, 0);
    lemma_removed(given, at, other, 0);
    if k < at {
        assert(rest[k] == given[k]);
    } else if k < given.len() {
        assert(rest[k - 1] == given[k]);
    }
    lemma_switch_first(given, other, 0);
    lemma_switch_first(rest, other, 0);
    let s = switch_at(given, other, 0);
    let t = switch_at(rest, other, 0);
    if s < given.len() {
        if s < at {
            assert(rest[s] == given[s]);
        } else {
            assert(rest[s - 1] == given[s]);
        }
    }
    if t < rest.len() {
        if t < at {
            assert(given[t] == rest[t]);
        } else {
            assert(given[t + 1] == rest[t]);
        }
    }
}

/// To read one flag or switch spares the others.
pub proof fn law_reading_spares_the_others(given: Given, name: Seq<char>)
    ensures
        forall|other: Seq<char>|
            other != name ==> #[trigger] value_of(after_value(given, name), other) == value_of(
                given,
                other,
            ),
        forall|other: Seq<char>|
            other != name ==> #[trigger] is_given(after_value(given, name), other) == is_given(
                given,
                other,
            ),
        forall|other: Seq<char>|
            other != name ==> #[trigger] value_of(after_switch(given, name), other) == value_of(
                given,
                other,
            ),
        forall|other: Seq<char>|
            other != name ==> #[trigger] is_given(after_switch(given, name), other) == is_given(
                given,
                other,
            ),
{
    lemma_named_first(given, name, 0);
    lemma_switch_first(given, name, 0);
    let k = named_at(given, name, 0);
    let s = switch_at(given, name, 0);
    assert forall|other: Seq<char>| other != name implies #[trigger] value_of(
        after_value(given, name),
        other,
    ) == value_of(given, other) by {
        if k < given.len() {
            lemma_removal_spares(given, k, other);
        }
    }
    assert forall|other: Seq<char>| other != name implies #[trigger] is_given(
        after_value(given, name),
        other,
    ) == is_given(given, other) by {
        if k < given.len() {
            lemma_removal_spares(given, k, other);
        }
    }
    assert forall|other: Seq<char>| other != name implies #[trigger] value_of(
        after_switch(given, name),
        other,
    ) == value_of(given, other) by {
        if s < given.len() {
            lemma_removal_spares(given, s, other);
        }
    }
    assert forall|other: Seq<char>| other != name implies #[trigger] is_given(
        after_switch(given, name),
        other,
    ) == is_given(given, other) by {
        if s < given.len() {
            lemma_removal_spares(given, s, other);
        }
    }
}

/// Whether a flag is absent or holds a number.
pub open spec fn reads_as_u64(given: Given, name: Seq<char>) -> bool {
    value_of(given, name) is Some ==> u64_of(value_of(given, name)->0) is Some
}

/// Whether a flag is absent or holds a size.
pub open spec fn reads_as_usize(given: Given, name: Seq<char>) -> bool {
    value_of(given, name) is Some ==> usize_of(value_of(given, name)->0) is Some
}

/// The number in a flag, where it holds one.
pub open spec fn u64_in(given: Given, name: Seq<char>) -> Option<u64> {
    if value_of(given, name) is Some {
        u64_of(value_of(given, name)->0)
    } else {
        None
    }
}

/// The size in a flag, where it holds one.
pub open spec fn usize_in(given: Given, name: Seq<char>) -> Option<usize> {
    if value_of(given, name) is Some {
        usize_of(value_of(given, name)->0)
    } else {
        None
    }
}

/// A store is in memory when that is asked for, and else is the bucket named, with
/// what the other flags say of it; without a bucket there is none.
pub proof fn law_a_backend_is_read(given: Given)
    ensures
        ({
            let backend = backend_of(given).0;
            &&& is_given(given, "in-memory"@) ==> backend == Ok::<BackendView, FlagErrorView>(
                BackendView::InMemory,
            )
            &&& !is_given(given, "in-memory"@) && value_of(given, "bucket"@).is_none() ==> backend
                == Err::<BackendView, FlagErrorView>(
                FlagErrorView::Required("--bucket is required (or --in-memory for testing)"@),
            )
            &&& !is_given(given, "in-memory"@) && value_of(given, "bucket"@) is Some ==> backend
                == Ok::<BackendView, FlagErrorView>(
                BackendView::S3 {
                    bucket: value_of(given, "bucket"@)->0,
                    region: value_of(given, "region"@),
                    allow_http: is_given(given, "allow-http"@),
                    force_path_style: !is_given(given, "virtual-hosted"@),
                    endpoint: value_of(given, "endpoint"@),
                },
            )
        }),
        forall|name: Seq<char>|
            #![trigger value_of(backend_of(given).1, name)]
            name == "prefix"@ || name == "store-id"@ || name == "op-timeout-secs"@ || name
                == "retries"@ || name == "cache-mb"@ || name == "expect-manifest-sha"@ ==> value_of(
                backend_of(given).1,
                name,
            ) == value_of(given, name),
{
    lemma_flag_names();
    let g1 = after_switch(given, "in-memory"@);
    let g2 = after_value(g1, "bucket"@);
    let g3 = after_value(g2, "endpoint"@);
    let g4 = after_value(g3, "region"@);
    let g5 = after_switch(g4, "allow-http"@);
    law_reading_spares_the_others(given, "in-memory"@);
    law_reading_spares_the_others(g1, "bucket"@);
    law_reading_spares_the_others(g2, "endpoint"@);
    law_reading_spares_the_others(g3, "region"@);
    law_reading_spares_the_others(g4, "allow-http"@);
    law_reading_spares_the_others(g5, "virtual-hosted"@);
}

/// What is read of the remote store: its backend, and each option under its own
/// flag. A timeout is a second at least, and the cache is counted in MiB.
pub proof fn law_a_remote_is_read(given: Given)
    ensures
        ({
            let remote = remote_of(given).0;
            let backend = backend_of(given).0;
            &&& remote is Ok <==> backend is Ok && reads_as_u64(given, "op-timeout-secs"@)
                && reads_as_usize(given, "retries"@) && reads_as_usize(given, "cache-mb"@)
            &&& remote is Ok ==> {
                let r = remote->Ok_0;
                &&& r.backend == backend->Ok_0
                &&& r.prefix == value_of(given, "prefix"@)
                &&& r.store_identity == value_of(given, "store-id"@)
                &&& r.expected_manifest_sha256 == value_of(given, "expect-manifest-sha"@)
                &&& r.max_retries == usize_in(given, "retries"@)
                &&& r.op_timeout_secs is Some <==> u64_in(given, "op-timeout-secs"@) is Some
                &&& r.op_timeout_secs is Some ==> r.op_timeout_secs->0 >= 1 && (
                r.op_timeout_secs->0 == u64_in(given, "op-timeout-secs"@)->0 || u64_in(
                    given,
                    "op-timeout-secs"@,
                )->0 == 0 && r.op_timeout_secs->0 == 1)
                &&& r.cache_bytes is Some <==> usize_in(given, "cache-mb"@) is Some
                &&& r.cache_bytes is Some ==> r.cache_bytes->0 as int == usize_in(
                    given,
                    "cache-mb"@,
                )->0 * 1_048_576 || r.cache_bytes->0 == usize::MAX && usize_in(
                    given,
                    "cache-mb"@,
                )->0 * 1_048_576 > usize::MAX
            }
        }),
{
    lemma_flag_names();
    law_a_backend_is_read(given);
    let g0 = backend_of(given).1;
    let g1 = after_value(g0, "prefix"@);
    let g2 = after_value(g1, "store-id"@);
    let g3 = after_value(g2, "op-timeout-secs"@);
    let g4 = after_value(g3, "retries"@);
    assert(value_of(g0, "prefix"@) == value_of(given, "prefix"@));
    assert(value_of(g0, "store-id"@) == value_of(given, "store-id"@));
    assert(value_of(g0, "op-timeout-secs"@) == value_of(given, "op-timeout-secs"@));
    assert(value_of(g0, "retries"@) == value_of(given, "retries"@));
    assert(value_of(g0, "cache-mb"@) == value_of(given, "cache-mb"@));
    assert(value_of(g0, "expect-manifest-sha"@) == value_of(given, "expect-manifest-sha"@));
    law_taking_a_flag_spares_the_others(g0, "prefix"@, "store-id"@);
    law_taking_a_flag_spares_the_others(g0, "prefix"@, "op-timeout-secs"@);
    law_taking_a_flag_spares_the_others(g0, "prefix"@, "retries"@);
    law_taking_a_flag_spares_the_others(g0, "prefix"@, "cache-mb"@);
    law_taking_a_flag_spares_the_others(g0, "prefix"@, "expect-manifest-sha"@);
    law_taking_a_flag_spares_the_others(g1, "store-id"@, "op-timeout-secs"@);
    law_taking_a_flag_spares_the_others(g1, "store-id"@, "retries"@);
    law_taking_a_flag_spares_the_others(g1, "store-id"@, "cache-mb"@);
    law_taking_a_flag_spares_the_others(g1, "store-id"@, "expect-manifest-sha"@);
    law_taking_a_flag_spares_the_others(g2, "op-timeout-secs"@, "retries"@);
    law_taking_a_flag_spares_the_others(g2, "op-timeout-secs"@, "cache-mb"@);
    law_taking_a_flag_spares_the_others(g2, "op-timeout-secs"@, "expect-manifest-sha"@);
    law_taking_a_flag_spares_the_others(g3, "retries"@, "cache-mb"@);
    law_taking_a_flag_spares_the_others(g3, "retries"@, "expect-manifest-sha"@);
    law_taking_a_flag_spares_the_others(g4, "cache-mb"@, "expect-manifest-sha"@);
    reveal(remote_of);
    assert(u64_flag(g2, "op-timeout-secs"@) is Ok == reads_as_u64(given, "op-timeout-secs"@));
    assert(usize_flag(g3, "retries"@) is Ok == reads_as_usize(given, "retries"@));
    assert(usize_flag(g4, "cache-mb"@) is Ok == reads_as_usize(given, "cache-mb"@));
}

proof fn lemma_text_filters(given: Given)
    ensures
        text_filters(given).service == value_of(given, "service"@),
        text_filters(given).name == value_of(given, "name"@),
        text_filters(given).status == value_of(given, "status"@),
        text_filters(given).tenant == value_of(given, "tenant"@),
        text_filters(given).content == value_of(given, "content"@),
        text_filters(given).session == value_of(given, "session"@),
        value_of(after_texts(given), "since-ns"@) == value_of(given, "since-ns"@),
        value_of(after_texts(given), "until-ns"@) == value_of(given, "until-ns"@),
        value_of(after_texts(given), "min-duration-ns"@) == value_of(given, "min-duration-ns"@),
        value_of(after_texts(given), "limit"@) == value_of(given, "limit"@),
        value_of(after_texts(given), "sort"@) == value_of(given, "sort"@),
{
    lemma_filter_names();
    let t1 = after_value(given, "service"@);
    let t2 = after_value(t1, "name"@);
    let t3 = after_value(t2, "status"@);
    let t4 = after_value(t3, "tenant"@);
    let t5 = after_value(t4, "content"@);
    law_taking_a_flag_spares_the_others(given, "service"@, "name"@);
    law_taking_a_flag_spares_the_others(given, "service"@, "status"@);
    law_taking_a_flag_spares_the_others(given, "service"@, "tenant"@);
    law_taking_a_flag_spares_the_others(given, "service"@, "content"@);
    law_taking_a_flag_spares_the_others(given, "service"@, "session"@);
    law_taking_a_flag_spares_the_others(given, "service"@, "since-ns"@);
    law_taking_a_flag_spares_the_others(given, "service"@, "until-ns"@);
    law_taking_a_flag_spares_the_others(given, "service"@, "min-duration-ns"@);
    law_taking_a_flag_spares_the_others(given, "service"@, "limit"@);
    law_taking_a_flag_spares_the_others(given, "service"@, "sort"@);
    law_taking_a_flag_spares_the_others(t1, "name"@, "status"@);
    law_taking_a_flag_spares_the_others(t1, "name"@, "tenant"@);
    law_taking_a_flag_spares_the_others(t1, "name"@, "content"@);
    law_taking_a_flag_spares_the_others(t1, "name"@, "session"@);
    law_taking_a_flag_spares_the_others(t1, "name"@, "since-ns"@);
    law_taking_a_flag_spares_the_others(t1, "name"@, "until-ns"@);
    law_taking_a_flag_spares_the_others(t1, "name"@, "min-duration-ns"@);
    law_taking_a_flag_spares_the_others(t1, "name"@, "limit"@);
    law_taking_a_flag_spares_the_others(t1, "name"@, "sort"@);
    law_taking_a_flag_spares_the_others(t2, "status"@, "tenant"@);
    law_taking_a_flag_spares_the_others(t2, "status"@, "content"@);
    law_taking_a_flag_spares_the_others(t2, "status"@, "session"@);
    law_taking_a_flag_spares_the_others(t2, "status"@, "since-ns"@);
    law_taking_a_flag_spares_the_others(t2, "status"@, "until-ns"@);
    law_taking_a_flag_spares_the_others(t2, "status"@, "min-duration-ns"@);
    law_taking_a_flag_spares_the_others(t2, "status"@, "limit"@);
    law_taking_a_flag_spares_the_others(t2, "status"@, "sort"@);
    law_taking_a_flag_spares_the_others(t3, "tenant"@, "content"@);
    law_taking_a_flag_spares_the_others(t3, "tenant"@, "session"@);
    law_taking_a_flag_spares_the_others(t3, "tenant"@, "since-ns"@);
    law_taking_a_flag_spares_the_others(t3, "tenant"@, "until-ns"@);
    law_taking_a_flag_spares_the_others(t3, "tenant"@, "min-duration-ns"@);
    law_taking_a_flag_spares_the_others(t3, "tenant"@, "limit"@);
    law_taking_a_flag_spares_the_others(t3, "tenant"@, "sort"@);
    law_taking_a_flag_spares_the_others(t4, "content"@, "session"@);
    law_taking_a_flag_spares_the_others(t4, "content"@, "since-ns"@);
    law_taking_a_flag_spares_the_others(t4, "content"@, "until-ns"@);
    law_taking_a_flag_spares_the_others(t4, "content"@, "min-duration-ns"@);
    law_taking_a_flag_spares_the_others(t4, "content"@, "limit"@);
    law_taking_a_flag_spares_the_others(t4, "content"@, "sort"@);
    law_taking_a_flag_spares_the_others(t5, "session"@, "since-ns"@);
    law_taking_a_flag_spares_the_others(t5, "session"@, "until-ns"@);
    law_taking_a_flag_spares_the_others(t5, "session"@, "min-duration-ns"@);
    law_taking_a_flag_spares_the_others(t5, "session"@, "limit"@);
    law_taking_a_flag_spares_the_others(t5, "session"@, "sort"@);
}

/// What is read of a filter: each bound under its own flag, and nothing else.
pub proof fn law_a_filter_is_read(given: Given)
    ensures
        ({
            let filter = filter_flags(given).0;
            let sort = value_of(given, "sort"@);
            &&& filter is Ok <==> reads_as_u64(given, "since-ns"@) && reads_as_u64(
                given,
                "until-ns"@,
            ) && reads_as_u64(given, "min-duration-ns"@) && reads_as_usize(given, "limit"@) && (
            sort is Some ==> sort_named(sort->0) is Some)
            &&& filter is Ok ==> {
                let f = filter->Ok_0;
                &&& f.service == value_of(given, "service"@)
                &&& f.name == value_of(given, "name"@)
                &&& f.status == value_of(given, "status"@)
                &&& f.tenant == value_of(given, "tenant"@)
                &&& f.content == value_of(given, "content"@)
                &&& f.session == value_of(given, "session"@)
                &&& f.since_ns == u64_in(given, "since-ns"@)
                &&& f.until_ns == u64_in(given, "until-ns"@)
                &&& f.min_duration_ns == u64_in(given, "min-duration-ns"@)
                &&& f.limit == usize_in(given, "limit"@)
                &&& f.sort == if sort is Some {
                    sort_named(sort->0)
                } else {
                    None
                }
            }
        }),
{
    reveal(filter_flags);
    lemma_filter_names();
    lemma_text_filters(given);
    let g0 = after_texts(given);
    let g1 = after_value(g0, "since-ns"@);
    let g2 = after_value(g1, "until-ns"@);
    let g3 = after_value(g2, "min-duration-ns"@);
    law_taking_a_flag_spares_the_others(g0, "since-ns"@, "until-ns"@);
    law_taking_a_flag_spares_the_others(g0, "since-ns"@, "min-duration-ns"@);
    law_taking_a_flag_spares_the_others(g0, "since-ns"@, "limit"@);
    law_taking_a_flag_spares_the_others(g0, "since-ns"@, "sort"@);
    law_taking_a_flag_spares_the_others(g1, "until-ns"@, "min-duration-ns"@);
    law_taking_a_flag_spares_the_others(g1, "until-ns"@, "limit"@);
    law_taking_a_flag_spares_the_others(g1, "until-ns"@, "sort"@);
    law_taking_a_flag_spares_the_others(g2, "min-duration-ns"@, "limit"@);
    law_taking_a_flag_spares_the_others(g2, "min-duration-ns"@, "sort"@);
    law_taking_a_flag_spares_the_others(g3, "limit"@, "sort"@);
    assert(u64_flag(g0, "since-ns"@) is Ok == reads_as_u64(given, "since-ns"@));
    assert(u64_flag(g1, "until-ns"@) is Ok == reads_as_u64(given, "until-ns"@));
    assert(u64_flag(g2, "min-duration-ns"@) is Ok == reads_as_u64(given, "min-duration-ns"@));
    assert(usize_flag(g3, "limit"@) is Ok == reads_as_usize(given, "limit"@));
}

/// What each command is asked for: a task needs the flags that say what it is
/// about, and holds them as they were given.
pub proof fn law_tasks(given: Given)
    ensures
        task_of(Verb::List, given).0 == Ok::<TaskView, FlagErrorView>(TaskView::List),
        task_of(Verb::Publish, given).0 is Ok <==> value_of(given, "pin"@) is Some && value_of(
            given,
            "snapshot"@,
        ) is Some,
        task_of(Verb::Publish, given).0 matches Ok(task) ==> task == (TaskView::Publish {
            pin: value_of(given, "pin"@)->0,
            snapshot: value_of(given, "snapshot"@)->0,
        }),
        forall|verb: Verb|
            verb != Verb::List && value_of(given, "snapshot"@).is_none() ==> (#[trigger] task_of(
                verb,
                given,
            )).0 is Err,
        value_of(given, "snapshot"@) is Some ==> ({
            let snapshot = value_of(given, "snapshot"@)->0;
            &&& task_of(Verb::Inspect, given).0 == Ok::<TaskView, FlagErrorView>(
                TaskView::Inspect { snapshot },
            )
            &&& task_of(Verb::Delete, given).0 == Ok::<TaskView, FlagErrorView>(
                TaskView::Delete { snapshot },
            )
            &&& task_of(Verb::Verify, given).0 == Ok::<TaskView, FlagErrorView>(
                TaskView::Verify { snapshot, deep: is_given(given, "deep"@) },
            )
            &&& task_of(Verb::Cleanup, given).0 == Ok::<TaskView, FlagErrorView>(
                TaskView::Cleanup {
                    snapshot,
                    quiescent: is_given(given, "publisher-quiescent"@),
                },
            )
            &&& task_of(Verb::Trace, given).0 is Ok <==> value_of(given, "trace-id"@) is Some
            &&& task_of(Verb::Trace, given).0 matches Ok(task) ==> task == (TaskView::Trace {
                snapshot,
                trace_id: value_of(given, "trace-id"@)->0,
                tenant: value_of(given, "tenant"@),
            })
            &&& task_of(Verb::Payload, given).0 is Ok <==> value_of(given, "ref"@) is Some
            &&& task_of(Verb::Payload, given).0 matches Ok(task) ==> task == (TaskView::Payload {
                snapshot,
                reference: value_of(given, "ref"@)->0,
            })
            &&& task_of(Verb::Restore, given).0 is Ok <==> value_of(given, "into"@) is Some
            &&& task_of(Verb::Restore, given).0 matches Ok(task) ==> task == (TaskView::Restore {
                snapshot,
                into: value_of(given, "into"@)->0,
            })
            &&& task_of(Verb::Query, given).0 matches Ok(task) ==> task is Query
                && task->Query_snapshot == snapshot && task->Query_deadline_ms == u64_in(
                given,
                "deadline-ms"@,
            )
        }),
{
    lemma_filter_names();
    law_reading_spares_the_others(given, "snapshot"@);
    law_reading_spares_the_others(given, "pin"@);
    let g1 = after_value(given, "snapshot"@);
    law_reading_spares_the_others(g1, "trace-id"@);
}

/// A pin needs the data directory and a label, and takes no other flag.
pub proof fn law_a_pin_is_read(given: Given)
    ensures
        pin_of(given) matches Ok(plan) ==> plan is Pin && Some(plan->Pin_data_dir) == value_of(
            given,
            "data-dir"@,
        ) && Some(plan->Pin_label) == value_of(given, "label"@),
        value_of(given, "data-dir"@).is_none() || value_of(given, "label"@).is_none() ==> pin_of(
            given,
        ) is Err,
        forall|other: Seq<char>|
            #![trigger value_of(given, other)]
            other != "data-dir"@ && other != "label"@ && value_of(given, other) is Some ==> pin_of(
                given,
            ) is Err,
{
    lemma_filter_names();
    law_reading_spares_the_others(given, "data-dir"@);
    let g1 = after_value(given, "data-dir"@);
    law_reading_spares_the_others(g1, "label"@);
    let g2 = after_value(g1, "label"@);
    assert forall|other: Seq<char>|
        #![trigger value_of(given, other)]
        other != "data-dir"@ && other != "label"@ && value_of(given, other) is Some implies pin_of(
        given,
    ) is Err by {
        assert(value_of(g1, other) is Some);
        assert(value_of(g2, other) is Some);
        lemma_named_first(g2, other, 0);
        assert(g2.len() > 0);
    }
}

/// Which command a word names.
pub proof fn law_commands(given: Given, command: Seq<char>)
    ensures
        object_command("help"@, given) == Ok::<ObjectView, FlagErrorView>(ObjectView::Help),
        object_command("--help"@, given) == Ok::<ObjectView, FlagErrorView>(ObjectView::Help),
        object_command("-h"@, given) == Ok::<ObjectView, FlagErrorView>(ObjectView::Help),
        object_command("version"@, given) == Ok::<ObjectView, FlagErrorView>(ObjectView::Version),
        object_command("--version"@, given) == Ok::<ObjectView, FlagErrorView>(
            ObjectView::Version,
        ),
        object_command("-V"@, given) == Ok::<ObjectView, FlagErrorView>(ObjectView::Version),
        object_command("pin"@, given) == pin_of(given),
        verb_named("publish"@) == Some(Verb::Publish) && verb_named("list"@) == Some(Verb::List),
        verb_named("inspect"@) == Some(Verb::Inspect) && verb_named("verify"@) == Some(
            Verb::Verify,
        ),
        verb_named("query"@) == Some(Verb::Query) && verb_named("trace"@) == Some(Verb::Trace),
        verb_named("payload"@) == Some(Verb::Payload) && verb_named("restore"@) == Some(
            Verb::Restore,
        ),
        verb_named("delete"@) == Some(Verb::Delete) && verb_named("cleanup"@) == Some(
            Verb::Cleanup,
        ),
        verb_named(command).is_none() ==> object_command(command, given) is Ok || command == "pin"@
            || object_command(command, given) == Err::<ObjectView, FlagErrorView>(
            FlagErrorView::UnknownCommand(command),
        ),
        object_plan(seq![]) == Err::<ObjectView, FlagErrorView>(FlagErrorView::NoCommand),
{
    lemma_commands();
}

/// A command on the archive is its task and its store, and a flag that neither
/// knows is reported by name.
pub proof fn law_an_archive_command(verb: Verb, given: Given)
    ensures
        archive_of(verb, given) matches Ok(plan) ==> {
            &&& plan is Archive
            &&& task_of(verb, given).0 == Ok::<TaskView, FlagErrorView>(plan->Archive_task)
            &&& remote_of(task_of(verb, given).1).0 == Ok::<RemoteView, FlagErrorView>(
                plan->Archive_remote,
            )
            &&& plan->Archive_leftover is None <==> remote_of(task_of(verb, given).1).1.len() == 0
            &&& plan->Archive_leftover matches Some(FlagErrorView::Unknown { name, known }) ==> name
                == remote_of(task_of(verb, given).1).1[0].0
        },
        archive_of(verb, given) is Err <==> task_of(verb, given).0 is Err || remote_of(
            task_of(verb, given).1,
        ).0 is Err,
{
}

proof fn lemma_flags_later(args: Seq<Seq<char>>, i: int, before: Given)
    requires
        0 <= i,
    ensures
        flags_from(args, i, before) == match flags_from(args, i, seq![]) {
            Ok(given) => Ok::<Given, FlagErrorView>(before + given),
            Err(e) => Err(e),
        },
    decreases args.len() - i,
{
    let none: Given = seq![];
    if i >= args.len() {
        assert(before + none =~= before);
    } else {
        match strip_prefix(args[i], "--"@) {
            None => {},
            Some(name) => {
                if is_switch_name(name) {
                    let one = none.push((name, None));
                    lemma_flags_later(args, i + 1, before.push((name, None)));
                    lemma_flags_later(args, i + 1, one);
                    match flags_from(args, i + 1, none) {
                        Ok(given) => {
                            assert(before.push((name, None)) + given =~= before + (one + given));
                        },
                        Err(_) => {},
                    }
                } else if i + 1 < args.len() {
                    let value = Some(args[i + 1]);
                    let one = none.push((name, value));
                    lemma_flags_later(args, i + 2, before.push((name, value)));
                    lemma_flags_later(args, i + 2, one);
                    match flags_from(args, i + 2, none) {
                        Ok(given) => {
                            assert(before.push((name, value)) + given =~= before + (one + given));
                        },
                        Err(_) => {},
                    }
                }
            },
        }
    }
}

proof fn lemma_flags_shift(front: Seq<Seq<char>>, rest: Seq<Seq<char>>, i: int, before: Given)
    requires
        0 <= i,
    ensures
        flags_from(front + rest, front.len() + i, before) == flags_from(rest, i, before),
    decreases rest.len() - i,
{
    let args = front + rest;
    let at = front.len() + i;
    if i < rest.len() {
        assert(args[at] == rest[i]);
        match strip_prefix(rest[i], "--"@) {
            None => {},
            Some(name) => {
                if is_switch_name(name) {
                    lemma_flags_shift(front, rest, i + 1, before.push((name, None)));
                } else if i + 1 < rest.len() {
                    assert(args[at + 1] == rest[i + 1]);
                    lemma_flags_shift(front, rest, i + 2, before.push((name, Some(rest[i + 1]))));
                }
            },
        }
    }
}

/// How flags are read: a switch stands alone, any other flag is followed by its
/// value, whatever that looks like, and an argument in a flag's place that is no
/// flag is refused.
pub proof fn law_flags_are_read(name: Seq<char>, value: Seq<char>, rest: Seq<Seq<char>>)
    ensures
        ({
            let none: Given = seq![];
            let after = flags_from(rest, 0, none);
            let flag = "--"@ + name;
            let switch = name == "allow-http"@ || name == "virtual-hosted"@ || name
                == "in-memory"@ || name == "deep"@ || name == "publisher-quiescent"@;
            &&& flags_from(seq![], 0, none) == Ok::<Given, FlagErrorView>(none)
            &&& switch ==> flags_from(seq![flag] + rest, 0, none) == match after {
                Ok(given) => Ok::<Given, FlagErrorView>(seq![(name, None)] + given),
                Err(e) => Err(e),
            }
            &&& !switch ==> flags_from(seq![flag, value] + rest, 0, none) == match after {
                Ok(given) => Ok::<Given, FlagErrorView>(seq![(name, Some(value))] + given),
                Err(e) => Err(e),
            }
            &&& !switch ==> flags_from(seq![flag], 0, none) == Err::<Given, FlagErrorView>(
                FlagErrorView::NeedsValue(name),
            )
            &&& !crate::text::starts_with(value, "--"@) ==> flags_from(seq![value] + rest, 0, none)
                == Err::<Given, FlagErrorView>(FlagErrorView::Unexpected(value))
        }),
{
    let none: Given = seq![];
    let flag = "--"@ + name;
    crate::text::law_prefixes("--"@, name, flag);
    assert(strip_prefix(flag, "--"@) == Some(name)) by {
        assert(flag.skip("--"@.len() as int) =~= name);
    }
    let alone = seq![flag] + rest;
    assert(alone[0] == flag);
    if is_switch_name(name) {
        let one = none.push((name, None));
        lemma_flags_shift(seq![flag], rest, 0, one);
        lemma_flags_later(rest, 0, one);
        assert(one =~= seq![(name, None::<Seq<char>>)]);
        assert(flags_from(alone, 0, none) == flags_from(alone, 1, one));
    } else {
        let with = seq![flag, value] + rest;
        assert(with[0] == flag && with[1] == value);
        let one = none.push((name, Some(value)));
        lemma_flags_shift(seq![flag, value], rest, 0, one);
        lemma_flags_later(rest, 0, one);
        assert(one =~= seq![(name, Some(value))]);
        assert(flags_from(with, 0, none) == flags_from(with, 2, one));
        assert(seq![flag][0] == flag);
    }
    let stray = seq![value] + rest;
    assert(stray[0] == value);
}

} // verus!
