use vstd::prelude::*;

use crate::config;
use crate::text::chars_of;
use serde_json::Value;
use serde_json_path::{JsonPath, ParseError};

verus! {

#[verifier::external_type_specification]
#[verifier::external_body]
pub struct ExJsonPath(JsonPath);

#[verifier::external_type_specification]
#[verifier::external_body]
pub struct ExParseError(ParseError);

#[verifier::external_type_specification]
#[verifier::external_body]
pub struct ExValue(Value);

/// What `str::to_lowercase` makes of a string.
pub uninterp spec fn lower_of(s: Seq<char>) -> Seq<char>;

/// Whether `JsonPath::parse` accepts a path text.
pub uninterp spec fn json_path_parses(s: Seq<char>) -> bool;

/// The path that `JsonPath::parse` makes of a path text it accepts.
pub uninterp spec fn parsed_path(s: Seq<char>) -> JsonPath;

/// Every character of `s` is ASCII.
pub open spec fn ascii_text(s: Seq<char>) -> bool {
    forall|i: int| 0 <= i < s.len() ==> (#[trigger] s[i] as u32) < 128
}

/// ASCII text lower-cased: `A` to `Z` become `a` to `z`, every other character stays.
pub open spec fn ascii_lowered(s: Seq<char>) -> Seq<char> {
    s.map_values(|c: char| ascii_lower_char(c))
}

/// An ASCII character lower-cased: `A` to `Z` become `a` to `z`, others stay.
pub open spec fn ascii_lower_char(c: char) -> char {
    if 'A' <= c && c <= 'Z' {
        ((c as u32) + 32) as char
    } else {
        c
    }
}

/// Relies on `str::to_lowercase`: the result depends on the characters alone, and on ASCII
/// text it lower-cases `A` to `Z` and leaves every other character as it is.
#[verifier::external_body]
fn lowercase(s: &str) -> (r: String)
    ensures
        r@ == lower_of(s@),
        ascii_text(s@) ==> r@ == ascii_lowered(s@),
{
    s.to_lowercase()
}

/// Relies on `JsonPath::parse`: whether a path text parses, and what it parses to, depend on
/// the text alone.
#[verifier::external_body]
fn parse_path(s: &str) -> (r: Result<JsonPath, ParseError>)
    ensures
        r is Ok <==> json_path_parses(s@),
        r matches Ok(p) ==> p == parsed_path(s@),
{
    JsonPath::parse(s)
}

/// The nodes that `JsonPath::query` selects in a value, in the order it gives them.
pub uninterp spec fn path_query(path: JsonPath, value: Value) -> Seq<Value>;

/// What `Value::as_str` gives for a node: its text when it is a string.
pub uninterp spec fn node_text(node: Value) -> Option<Seq<char>>;

/// Relies on `JsonPath::query` and `NodeList::all`: the nodes depend on the path and the value
/// alone; each node is handed back as a copy.
#[verifier::external_body]
fn query_nodes(path: &JsonPath, value: &Value) -> (r: Vec<Value>)
    ensures
        r@ == path_query(*path, *value),
{
    path.query(value).all().into_iter().cloned().collect()
}

/// `Value::as_str`: the text of a string node depends on the node alone.
pub assume_specification[ Value::as_str ](v: &Value) -> (r: Option<&str>)
    ensures
        r matches Some(t) ==> node_text(*v) == Some(t@),
        r is None ==> node_text(*v) is None,
;

/// The texts of the string nodes among `nodes`, in order.
pub open spec fn texts_of(nodes: Seq<Value>) -> Seq<Seq<char>>
    decreases nodes.len(),
{
    if nodes.len() == 0 {
        Seq::empty()
    } else {
        let rest = texts_of(nodes.drop_last());
        match node_text(nodes.last()) {
            Some(t) => rest.push(t),
            None => rest,
        }
    }
}

/// The strings that `path` selects in `value`: the string nodes of the query's result.
pub open spec fn selected_strings(path: JsonPath, value: Value) -> Seq<Seq<char>> {
    texts_of(path_query(path, value))
}

/// `needle` occurs in `hay` starting at `i`.
pub open spec fn occurs_at(hay: Seq<char>, needle: Seq<char>, i: int) -> bool {
    &&& 0 <= i
    &&& i + needle.len() <= hay.len()
    &&& hay.subrange(i, i + needle.len()) == needle
}

/// `needle` occurs in `hay` at `i` and nowhere before.
pub open spec fn first_occurs_at(hay: Seq<char>, needle: Seq<char>, i: int) -> bool {
    &&& occurs_at(hay, needle, i)
    &&& forall|j: int| 0 <= j < i ==> !occurs_at(hay, needle, j)
}

/// Where `needle` first occurs in `hay`, if anywhere.
pub open spec fn first_index_of(hay: Seq<char>, needle: Seq<char>) -> Option<int> {
    if exists|i: int| first_occurs_at(hay, needle, i) {
        Some(choose|i: int| first_occurs_at(hay, needle, i))
    } else {
        None
    }
}

pub open spec fn starts_with(s: Seq<char>, prefix: Seq<char>) -> bool {
    prefix.len() <= s.len() && s.take(prefix.len() as int) == prefix
}

/// Every value of `expected` occurs in `leaf`, and each one's first occurrence starts after
/// the previous one's; an empty list is never met.
pub open spec fn occurs_in_order(leaf: Seq<char>, expected: Seq<Seq<char>>) -> bool {
    &&& expected.len() > 0
    &&& forall|k: int| 0 <= k < expected.len() ==> first_index_of(leaf, expected[k]) is Some
    &&& forall|k: int|
        0 < k < expected.len() ==> first_index_of(leaf, #[trigger] expected[k])->0
            > first_index_of(leaf, expected[k - 1])->0
}

pub open spec fn strings_view(v: Seq<String>) -> Seq<Seq<char>> {
    v.map_values(|s: String| s@)
}

/// Some leaf, lower-cased, equals `expected`.
pub open spec fn some_leaf_equals(leaves: Seq<Seq<char>>, expected: Seq<char>) -> bool {
    exists|i: int| 0 <= i < leaves.len() && lower_of(#[trigger] leaves[i]) == expected
}

/// Some leaf, lower-cased, starts with `prefix`.
pub open spec fn some_leaf_starts_with(leaves: Seq<Seq<char>>, prefix: Seq<char>) -> bool {
    exists|i: int| 0 <= i < leaves.len() && starts_with(lower_of(#[trigger] leaves[i]), prefix)
}

/// Some leaf, lower-cased, holds the values of `expected` in order.
pub open spec fn some_leaf_in_order(leaves: Seq<Seq<char>>, expected: Seq<Seq<char>>) -> bool {
    exists|i: int|
        0 <= i < leaves.len() && occurs_in_order(lower_of(#[trigger] leaves[i]), expected)
}

/// Whether `needle` occurs in `hay` at `i`.
fn occurs_at_exec(hay: &Vec<char>, needle: &Vec<char>, i: usize) -> (r: bool)
    requires
        i + needle.len() <= hay.len(),
    ensures
        r == occurs_at(hay@, needle@, i as int),
{
    let mut k: usize = 0;
    while k < needle.len()
        invariant
            k <= needle.len(),
            i + needle.len() <= hay.len(),
            forall|j: int| 0 <= j < k ==> hay@[i + j] == needle@[j],
        decreases needle.len() - k,
    {
        if hay[i + k] != needle[k] {
            assert(hay@.subrange(i as int, i + needle.len())[k as int] != needle@[k as int]);
            return false;
        }
        k = k + 1;
    }
    assert(hay@.subrange(i as int, i + needle.len()) =~= needle@);
    true
}

/// Where `needle` first occurs in `hay`.
pub fn find(hay: &Vec<char>, needle: &Vec<char>) -> (r: Option<usize>)
    ensures
        r matches Some(i) ==> first_index_of(hay@, needle@) == Some(i as int),
        r is None ==> first_index_of(hay@, needle@) is None,
{
    if needle.len() > hay.len() {
        assert forall|i: int| !first_occurs_at(hay@, needle@, i) by {}
        return None;
    }
    let last = hay.len() - needle.len();
    let mut i: usize = 0;
    while i <= last
        invariant
            last == hay.len() - needle.len(),
            needle.len() <= hay.len(),
            i <= last,
            forall|j: int| 0 <= j < i ==> !occurs_at(hay@, needle@, j),
        decreases last + 1 - i,
    {
        if occurs_at_exec(hay, needle, i) {
            assert(first_occurs_at(hay@, needle@, i as int));
            assert forall|j: int| first_occurs_at(hay@, needle@, j) implies j == i as int by {
                if j < i as int {
                } else if j > i as int {
                    assert(!first_occurs_at(hay@, needle@, j));
                }
            }
            return Some(i);
        }
        if i == last {
            assert forall|j: int| !first_occurs_at(hay@, needle@, j) by {}
            return None;
        }
        i = i + 1;
    }
    None
}


/// Why a rule could not be compiled.
#[derive(Debug)]
pub enum MatcherError {
    /// The rule's path expression does not parse.
    InvalidPath { path: String },
}

/// Compiles a path expression, or names it in the error.
fn compile_path(path: &str) -> (r: Result<JsonPath, MatcherError>)
    ensures
        r is Ok <==> json_path_parses(path@),
        r matches Ok(p) ==> p == parsed_path(path@),
        r matches Err(MatcherError::InvalidPath { path: p }) ==> p@ == path@,
{
    match parse_path(path) {
        Ok(p) => Ok(p),
        Err(_) => Err(MatcherError::InvalidPath { path: path.to_owned() }),
    }
}

/// The string nodes that `path` selects in `value`, in the order the query gives them.
fn string_leaves(path: &JsonPath, value: &Value) -> (r: Vec<String>)
    ensures
        strings_view(r@) == selected_strings(*path, *value),
{
    let nodes = query_nodes(path, value);
    let mut leaves: Vec<String> = Vec::new();
    let mut i: usize = 0;
    while i < nodes.len()
        invariant
            i <= nodes@.len(),
            strings_view(leaves@) == texts_of(nodes@.take(i as int)),
        decreases nodes.len() - i,
    {
        assert(nodes@.take(i + 1).drop_last() =~= nodes@.take(i as int));
        let node: &Value = &nodes[i];
        if let Some(text) = node.as_str() {
            let ghost before = leaves@;
            leaves.push(text.to_owned());
            assert(strings_view(leaves@) =~= strings_view(before).push(text@));
        }
        i = i + 1;
    }
    assert(nodes@.take(i as int) =~= nodes@);
    leaves
}

/// A lower-cased copy of each string, in order.
fn lowercase_all(values: &[String]) -> (r: Vec<String>)
    ensures
        r@.len() == values@.len(),
        forall|k: int| 0 <= k < values@.len() ==> #[trigger] r@[k]@ == lower_of(values@[k]@),
        forall|k: int|
            0 <= k < values@.len() && ascii_text(values@[k]@) ==> #[trigger] r@[k]@ == ascii_lowered(
                values@[k]@,
            ),
{
    let mut out: Vec<String> = Vec::new();
    let mut k: usize = 0;
    while k < values.len()
        invariant
            k <= values@.len(),
            out@.len() == k,
            forall|j: int| 0 <= j < k ==> #[trigger] out@[j]@ == lower_of(values@[j]@),
            forall|j: int|
                0 <= j < k && ascii_text(values@[j]@) ==> #[trigger] out@[j]@ == ascii_lowered(
                    values@[j]@,
                ),
        decreases values.len() - k,
    {
        out.push(lowercase(values[k].as_str()));
        k = k + 1;
    }
    out
}

/// Something that decides whether an event matches.
pub trait Matcher {
    fn matches(&self, value: &Value) -> bool;
}

/// Matches when a selected string equals the expected value, ignoring case.
pub struct EqualsMatcher {
    expected: String,
    path: JsonPath,
}

impl EqualsMatcher {
    /// The expected value, lower-cased.
    /// The compiled path of the rule.
    pub closed spec fn json_path(&self) -> JsonPath {
        self.path
    }

    pub closed spec fn expected_view(&self) -> Seq<char> {
        self.expected@
    }

    pub fn new(expected: &str, path: &str) -> (r: Result<Self, MatcherError>)
        ensures
            r is Ok <==> json_path_parses(path@),
            r matches Ok(m) ==> m.json_path() == parsed_path(path@),
            r matches Ok(m) ==> m.expected_view() == lower_of(expected@),
            r matches Ok(m) ==> (ascii_text(expected@) ==> m.expected_view() == ascii_lowered(
                expected@,
            )),
    {
        let path = compile_path(path)?;
        Ok(EqualsMatcher { expected: lowercase(expected), path })
    }

    /// Whether one lower-cased string meets the rule.
    pub fn matches_lowered(&self, leaf: &str) -> (r: bool)
        ensures
            r == (leaf@ == self.expected_view()),
    {
        leaf.to_owned() == self.expected
    }

    /// Whether any of the selected strings meets the rule.
    pub fn matches_leaves(&self, leaves: &Vec<String>) -> (r: bool)
        ensures
            r == some_leaf_equals(strings_view(leaves@), self.expected_view()),
    {
        let mut i: usize = 0;
        while i < leaves.len()
            invariant
                i <= leaves.len(),
                forall|j: int|
                    0 <= j < i ==> lower_of(#[trigger] strings_view(leaves@)[j])
                        != self.expected_view(),
            decreases leaves.len() - i,
        {
            let lowered = lowercase(leaves[i].as_str());
            if self.matches_lowered(lowered.as_str()) {
                assert(lower_of(strings_view(leaves@)[i as int]) == self.expected_view());
                return true;
            }
            i = i + 1;
        }
        false
    }

    /// Whether some string that the path selects in the event, lower-cased, equals the
    /// expected value.
    pub fn matches(&self, value: &Value) -> (r: bool)
        ensures
            r == some_leaf_equals(selected_strings(self.json_path(), *value), self.expected_view()),
    {
        let leaves = string_leaves(&self.path, value);
        self.matches_leaves(&leaves)
    }
}

impl Matcher for EqualsMatcher {
    fn matches(&self, value: &Value) -> bool {
        EqualsMatcher::matches(self, value)
    }
}

/// Matches when a selected string starts with the expected prefix, ignoring case.
pub struct PrefixMatcher {
    prefix: String,
    path: JsonPath,
}

impl PrefixMatcher {
    /// The expected prefix, lower-cased.
    /// The compiled path of the rule.
    pub closed spec fn json_path(&self) -> JsonPath {
        self.path
    }

    pub closed spec fn prefix_view(&self) -> Seq<char> {
        self.prefix@
    }

    pub fn new(prefix: &str, path: &str) -> (r: Result<Self, MatcherError>)
        ensures
            r is Ok <==> json_path_parses(path@),
            r matches Ok(m) ==> m.json_path() == parsed_path(path@),
            r matches Ok(m) ==> m.prefix_view() == lower_of(prefix@),
            r matches Ok(m) ==> (ascii_text(prefix@) ==> m.prefix_view() == ascii_lowered(prefix@)),
    {
        let path = compile_path(path)?;
        Ok(PrefixMatcher { prefix: lowercase(prefix), path })
    }

    /// Whether one lower-cased string meets the rule.
    pub fn matches_lowered(&self, leaf: &str) -> (r: bool)
        ensures
            r == starts_with(leaf@, self.prefix_view()),
    {
        let s = chars_of(leaf);
        let p = chars_of(self.prefix.as_str());
        if p.len() > s.len() {
            return false;
        }
        let mut k: usize = 0;
        while k < p.len()
            invariant
                k <= p.len() <= s.len(),
                s@ == leaf@,
                p@ == self.prefix_view(),
                forall|j: int| 0 <= j < k ==> s@[j] == p@[j],
            decreases p.len() - k,
        {
            if s[k] != p[k] {
                assert(s@.take(p.len() as int)[k as int] != p@[k as int]);
                return false;
            }
            k = k + 1;
        }
        assert(s@.take(p.len() as int) =~= p@);
        true
    }

    /// Whether any of the selected strings meets the rule.
    pub fn matches_leaves(&self, leaves: &Vec<String>) -> (r: bool)
        ensures
            r == some_leaf_starts_with(strings_view(leaves@), self.prefix_view()),
    {
        let mut i: usize = 0;
        while i < leaves.len()
            invariant
                i <= leaves.len(),
                forall|j: int|
                    0 <= j < i ==> !starts_with(
                        lower_of(#[trigger] strings_view(leaves@)[j]),
                        self.prefix_view(),
                    ),
            decreases leaves.len() - i,
        {
            let lowered = lowercase(leaves[i].as_str());
            if self.matches_lowered(lowered.as_str()) {
                assert(starts_with(lower_of(strings_view(leaves@)[i as int]), self.prefix_view()));
                return true;
            }
            i = i + 1;
        }
        false
    }

    /// Whether some string that the path selects in the event, lower-cased, starts with the
    /// prefix.
    pub fn matches(&self, value: &Value) -> (r: bool)
        ensures
            r == some_leaf_starts_with(selected_strings(self.json_path(), *value), self.prefix_view()),
    {
        let leaves = string_leaves(&self.path, value);
        self.matches_leaves(&leaves)
    }
}

impl Matcher for PrefixMatcher {
    fn matches(&self, value: &Value) -> bool {
        PrefixMatcher::matches(self, value)
    }
}

/// Matches when a selected string holds the expected values in order, ignoring case: each
/// value's first occurrence starts after the previous one's, with gaps allowed.
pub struct SequenceMatcher {
    expected: Vec<String>,
    path: JsonPath,
}

impl SequenceMatcher {
    /// The expected values, lower-cased, in order.
    /// The compiled path of the rule.
    pub closed spec fn json_path(&self) -> JsonPath {
        self.path
    }

    pub closed spec fn expected_view(&self) -> Seq<Seq<char>> {
        strings_view(self.expected@)
    }

    pub fn new(expected: &[String], path: &str) -> (r: Result<Self, MatcherError>)
        ensures
            r is Ok <==> json_path_parses(path@),
            r matches Ok(m) ==> m.json_path() == parsed_path(path@),
            r matches Ok(m) ==> m.expected_view() == strings_view(expected@).map_values(
                |s: Seq<char>| lower_of(s),
            ),
            r matches Ok(m) ==> forall|k: int|
                0 <= k < expected@.len() && ascii_text(expected@[k]@) ==> #[trigger] m.expected_view()[k]
                    == ascii_lowered(expected@[k]@),
    {
        let path = compile_path(path)?;
        let lowered = lowercase_all(expected);
        let m = SequenceMatcher { expected: lowered, path };
        assert(m.expected_view() =~= strings_view(expected@).map_values(
            |s: Seq<char>| lower_of(s),
        ));
        Ok(m)
    }

    /// Whether one lower-cased string meets the rule.
    pub fn matches_lowered(&self, leaf: &str) -> (r: bool)
        ensures
            r == occurs_in_order(leaf@, self.expected_view()),
    {
        let hay = chars_of(leaf);
        let ghost ex = self.expected_view();
        if self.expected.len() == 0 {
            return false;
        }
        let mut last: usize = 0;
        let mut k: usize = 0;
        while k < self.expected.len()
            invariant
                k <= self.expected@.len(),
                ex == self.expected_view(),
                ex.len() == self.expected@.len(),
                hay@ == leaf@,
                forall|j: int| 0 <= j < k ==> first_index_of(leaf@, ex[j]) is Some,
                forall|j: int|
                    0 < j < k ==> first_index_of(leaf@, #[trigger] ex[j])->0 > first_index_of(
                        leaf@,
                        ex[j - 1],
                    )->0,
                k > 0 ==> first_index_of(leaf@, ex[k - 1]) == Some(last as int),
            decreases self.expected.len() - k,
        {
            let needle = chars_of(self.expected[k].as_str());
            assert(needle@ == ex[k as int]);
            match find(&hay, &needle) {
                None => {
                    return false;
                },
                Some(at) => {
                    if k > 0 && at <= last {
                        return false;
                    }
                    last = at;
                },
            }
            k = k + 1;
        }
        true
    }

    /// Whether any of the selected strings meets the rule.
    pub fn matches_leaves(&self, leaves: &Vec<String>) -> (r: bool)
        ensures
            r == some_leaf_in_order(strings_view(leaves@), self.expected_view()),
    {
        let mut i: usize = 0;
        while i < leaves.len()
            invariant
                i <= leaves.len(),
                forall|j: int|
                    0 <= j < i ==> !occurs_in_order(
                        lower_of(#[trigger] strings_view(leaves@)[j]),
                        self.expected_view(),
                    ),
            decreases leaves.len() - i,
        {
            let lowered = lowercase(leaves[i].as_str());
            if self.matches_lowered(lowered.as_str()) {
                assert(occurs_in_order(
                    lower_of(strings_view(leaves@)[i as int]),
                    self.expected_view(),
                ));
                return true;
            }
            i = i + 1;
        }
        false
    }

    /// Whether some string that the path selects in the event, lower-cased, holds the expected
    /// values in order.
    pub fn matches(&self, value: &Value) -> (r: bool)
        ensures
            r == some_leaf_in_order(selected_strings(self.json_path(), *value), self.expected_view()),
    {
        let leaves = string_leaves(&self.path, value);
        self.matches_leaves(&leaves)
    }
}

impl Matcher for SequenceMatcher {
    fn matches(&self, value: &Value) -> bool {
        SequenceMatcher::matches(self, value)
    }
}


/// Whether a rule matches an event: some string that its path selects, lower-cased, meets it.
pub open spec fn rule_matches(rule: CompiledRule, value: Value) -> bool {
    match rule {
        CompiledRule::Equal(e) => some_leaf_equals(
            selected_strings(e.json_path(), value),
            e.expected_view(),
        ),
        CompiledRule::Prefix(p) => some_leaf_starts_with(
            selected_strings(p.json_path(), value),
            p.prefix_view(),
        ),
        CompiledRule::Sequence(q) => some_leaf_in_order(
            selected_strings(q.json_path(), value),
            q.expected_view(),
        ),
    }
}

/// Dropping trailing targets keeps a match: when a sequence matcher matches an event, a
/// matcher on the same path whose targets are a non-empty leading run of the first one's
/// matches it too.
pub proof fn lemma_leading_targets(longer: SequenceMatcher, shorter: SequenceMatcher, value: Value, k: int)
    requires
        longer.json_path() == shorter.json_path(),
        1 <= k <= longer.expected_view().len(),
        shorter.expected_view() == longer.expected_view().take(k),
        some_leaf_in_order(selected_strings(longer.json_path(), value), longer.expected_view()),
    ensures
        some_leaf_in_order(selected_strings(shorter.json_path(), value), shorter.expected_view()),
{
    let leaves = selected_strings(longer.json_path(), value);
    let ex = longer.expected_view();
    let short = shorter.expected_view();
    let i = choose|i: int| 0 <= i < leaves.len() && occurs_in_order(lower_of(#[trigger] leaves[i]), ex);
    let leaf = lower_of(leaves[i]);
    assert forall|j: int| 0 <= j < short.len() implies first_index_of(leaf, short[j]) is Some by {
        assert(short[j] == ex[j]);
    }
    assert forall|j: int| 0 < j < short.len() implies first_index_of(leaf, #[trigger] short[j])->0
        > first_index_of(leaf, short[j - 1])->0 by {
        assert(short[j] == ex[j] && short[j - 1] == ex[j - 1]);
    }
    assert(occurs_in_order(leaf, short));
}

/// A compiled rule of a feed.
pub enum CompiledRule {
    Equal(EqualsMatcher),
    Prefix(PrefixMatcher),
    Sequence(SequenceMatcher),
}

/// Whether every rule of a configured rule list has a path that parses.
pub open spec fn rules_compile(rules: Seq<config::Matcher>) -> bool {
    forall|k: int| 0 <= k < rules.len() ==> json_path_parses(#[trigger] rules[k].path_view())
}

/// `rule` is what compiling `m` gives: the same kind, with its values lower-cased.
pub open spec fn compiled_from(rule: CompiledRule, m: config::Matcher) -> bool {
    match (rule, m) {
        (CompiledRule::Equal(e), config::Matcher::Equal { path, value }) => e.json_path()
            == parsed_path(path@) && e.expected_view() == lower_of(value@),
        (CompiledRule::Prefix(p), config::Matcher::Prefix { path, value }) => p.json_path()
            == parsed_path(path@) && p.prefix_view() == lower_of(value@),
        (CompiledRule::Sequence(q), config::Matcher::Sequence { path, values }) => q.json_path()
            == parsed_path(path@) && q.expected_view() == strings_view(values@).map_values(
            |s: Seq<char>| lower_of(s),
        ),
        _ => false,
    }
}

impl CompiledRule {
    pub fn compile(m: &config::Matcher) -> (r: Result<CompiledRule, MatcherError>)
        ensures
            r is Ok <==> json_path_parses(m.path_view()),
            r matches Ok(rule) ==> compiled_from(rule, *m),
    {
        match m {
            config::Matcher::Equal { path, value } => {
                let e = EqualsMatcher::new(value.as_str(), path.as_str())?;
                Ok(CompiledRule::Equal(e))
            },
            config::Matcher::Prefix { path, value } => {
                let p = PrefixMatcher::new(value.as_str(), path.as_str())?;
                Ok(CompiledRule::Prefix(p))
            },
            config::Matcher::Sequence { path, values } => {
                let q = SequenceMatcher::new(values.as_slice(), path.as_str())?;
                Ok(CompiledRule::Sequence(q))
            },
        }
    }

    /// Whether the rule matches the event.
    pub fn matches(&self, value: &Value) -> (r: bool)
        ensures
            r == rule_matches(*self, *value),
    {
        match self {
            CompiledRule::Equal(e) => e.matches(value),
            CompiledRule::Prefix(p) => p.matches(value),
            CompiledRule::Sequence(q) => q.matches(value),
        }
    }
}

/// Whether any rule of the feed matches the event; a feed without rules matches nothing.
pub open spec fn feed_matches(feed: FeedMatcher, value: Value) -> bool {
    exists|k: int| 0 <= k < feed.rules().len() && rule_matches(#[trigger] feed.rules()[k], value)
}

/// The compiled rules of one feed.
pub struct FeedMatcher {
    pub feed: String,
    matchers: Vec<CompiledRule>,
}

impl FeedMatcher {
    pub closed spec fn rules(&self) -> Seq<CompiledRule> {
        self.matchers@
    }

    pub closed spec fn feed_view(&self) -> Seq<char> {
        self.feed@
    }

    /// The uri of the feed that these rules belong to.
    pub fn feed_uri(&self) -> (r: &String)
        ensures
            r@ == self.feed_view(),
    {
        &self.feed
    }

    /// Whether any rule of the feed matches the event; a feed without rules matches nothing.
    pub fn matches(&self, value: &Value) -> (r: bool)
        ensures
            r == feed_matches(*self, *value),
    {
        let mut i: usize = 0;
        while i < self.matchers.len()
            invariant
                i <= self.matchers.len(),
                forall|k: int| 0 <= k < i ==> !rule_matches(#[trigger] self.rules()[k], *value),
            decreases self.matchers.len() - i,
        {
            if self.matchers[i].matches(value) {
                assert(rule_matches(self.rules()[i as int], *value));
                return true;
            }
            i = i + 1;
        }
        false
    }
}

/// The compiled rules of every feed, in the order of the configuration.
pub struct FeedMatchers(pub Vec<FeedMatcher>);

impl FeedMatchers {
    /// Compiles every feed's rules; any path that does not parse fails the whole set, so no
    /// rule is ever dropped.
    pub fn from_config(config_feeds: &config::Feeds) -> (r: Result<Self, MatcherError>)
        ensures
            r is Ok <==> forall|f: int|
                0 <= f < config_feeds.feeds@.len() ==> rules_compile(
                    (#[trigger] config_feeds.feeds@[f]).matchers@,
                ),
            r matches Ok(fm) ==> {
                &&& fm.0@.len() == config_feeds.feeds@.len()
                &&& forall|f: int|
                    0 <= f < fm.0@.len() ==> {
                        let feed = config_feeds.feeds@[f];
                        let compiled = #[trigger] fm.0@[f];
                        &&& compiled.feed_view() == feed.uri@
                        &&& compiled.rules().len() == feed.matchers@.len()
                        &&& forall|k: int|
                            0 <= k < feed.matchers@.len() ==> compiled_from(
                                #[trigger] compiled.rules()[k],
                                feed.matchers@[k],
                            )
                    }
            },
    {
        let feeds = &config_feeds.feeds;
        let mut out: Vec<FeedMatcher> = Vec::new();
        let mut f: usize = 0;
        while f < feeds.len()
            invariant
                f <= feeds@.len(),
                feeds == config_feeds.feeds,
                out@.len() == f,
                forall|g: int| 0 <= g < f ==> rules_compile((#[trigger] feeds@[g]).matchers@),
                forall|g: int|
                    0 <= g < f ==> {
                        let feed = feeds@[g];
                        let compiled = #[trigger] out@[g];
                        &&& compiled.feed_view() == feed.uri@
                        &&& compiled.rules().len() == feed.matchers@.len()
                        &&& forall|k: int|
                            0 <= k < feed.matchers@.len() ==> compiled_from(
                                #[trigger] compiled.rules()[k],
                                feed.matchers@[k],
                            )
                    },
            decreases feeds.len() - f,
        {
            let feed = &feeds[f];
            let mut rules: Vec<CompiledRule> = Vec::new();
            let mut k: usize = 0;
            while k < feed.matchers.len()
                invariant
                    f < feeds@.len(),
                    *feed == feeds@[f as int],
                    feeds == config_feeds.feeds,
                    out@.len() == f,
                    forall|g: int| 0 <= g < f ==> rules_compile((#[trigger] feeds@[g]).matchers@),
                    forall|g: int|
                        0 <= g < f ==> {
                            let feed = feeds@[g];
                            let compiled = #[trigger] out@[g];
                            &&& compiled.feed_view() == feed.uri@
                            &&& compiled.rules().len() == feed.matchers@.len()
                            &&& forall|k: int|
                                0 <= k < feed.matchers@.len() ==> compiled_from(
                                    #[trigger] compiled.rules()[k],
                                    feed.matchers@[k],
                                )
                        },
                    k <= feed.matchers@.len(),
                    rules@.len() == k,
                    forall|j: int| 0 <= j < k ==> json_path_parses(#[trigger] feed.matchers@[j].path_view()),
                    forall|j: int|
                        0 <= j < k ==> compiled_from(#[trigger] rules@[j], feed.matchers@[j]),
                decreases feed.matchers.len() - k,
            {
                let rule = match CompiledRule::compile(&feed.matchers[k]) {
                    Ok(rule) => rule,
                    Err(e) => {
                        assert(!rules_compile(feeds@[f as int].matchers@));
                        return Err(e);
                    },
                };
                rules.push(rule);
                k = k + 1;
            }
            let compiled = FeedMatcher { feed: feed.uri.clone(), matchers: rules };
            assert(compiled.rules() == rules@);
            assert(compiled.feed_view() == feed.uri@);
            out.push(compiled);
            f = f + 1;
        }
        Ok(FeedMatchers(out))
    }
}

} // verus!
