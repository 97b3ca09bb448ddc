//! Templates: `${name}` and `${ENV:name}` placeholders in targets and bodies.
//!
//! The grammar: a template is a sequence of tokens, each one of
//! - `${ENV:` or `${env:`, one or more ASCII letters or digits, `}`: an environment variable;
//! - `${`, one or more ASCII letters or digits, `}`: a defined variable;
//! - one or more characters other than `$` and `{`: literal text.
//! Tokens are read left to right, trying the three forms in that order, until none
//! matches; what is left then is the remainder.
use vstd::prelude::*;
use crate::destinations::{Destinations, lookup};
use crate::text::{chars_of, string_of};

verus! {

/// An ASCII letter or digit.
pub open spec fn is_alnum(c: char) -> bool {
    ('0' <= c && c <= '9') || ('a' <= c && c <= 'z') || ('A' <= c && c <= 'Z')
}

/// A character that literal text may hold.
pub open spec fn is_literal_char(c: char) -> bool {
    c != '$' && c != '{'
}

/// The length of the longest run of letters and digits in `s` from `i` on.
pub open spec fn alnum_run(s: Seq<char>, i: int) -> nat
    decreases s.len() - i,
{
    if 0 <= i < s.len() && is_alnum(s[i]) {
        1 + alnum_run(s, i + 1)
    } else {
        0
    }
}

/// The length of the longest run of literal characters in `s` from `i` on.
pub open spec fn literal_run(s: Seq<char>, i: int) -> nat
    decreases s.len() - i,
{
    if 0 <= i < s.len() && is_literal_char(s[i]) {
        1 + literal_run(s, i + 1)
    } else {
        0
    }
}

/// `s` holds `p` at position `i`.
pub open spec fn holds_at(s: Seq<char>, i: int, p: Seq<char>) -> bool {
    0 <= i && i + p.len() <= s.len() && s.subrange(i, i + p.len()) == p
}

/// A token of a template, as a mathematical value.
pub enum Token {
    Literal(Seq<char>),
    Defined(Seq<char>),
    Environment(Seq<char>),
}

/// `${` name `}` where the opening is `open`: the name and the position after `}`.
pub open spec fn placeholder_at(s: Seq<char>, i: int, open: Seq<char>) -> Option<(Seq<char>, int)> {
    let start = i + open.len();
    let k = alnum_run(s, start);
    if holds_at(s, i, open) && k > 0 && start + k < s.len() && s[start + k] == '}' {
        Some((s.subrange(start, start + k), start + k + 1))
    } else {
        None
    }
}

/// An environment variable placeholder at `i`, and the position after it.
pub open spec fn env_token_at(s: Seq<char>, i: int) -> Option<(Token, int)> {
    if let Some((name, j)) = placeholder_at(s, i, seq!['$', '{', 'E', 'N', 'V', ':']) {
        Some((Token::Environment(name), j))
    } else if let Some((name, j)) = placeholder_at(s, i, seq!['$', '{', 'e', 'n', 'v', ':']) {
        Some((Token::Environment(name), j))
    } else {
        None
    }
}

/// A defined variable placeholder at `i`, and the position after it.
pub open spec fn var_token_at(s: Seq<char>, i: int) -> Option<(Token, int)> {
    if let Some((name, j)) = placeholder_at(s, i, seq!['$', '{']) {
        Some((Token::Defined(name), j))
    } else {
        None
    }
}

/// Literal text at `i`, and the position after it.
pub open spec fn literal_token_at(s: Seq<char>, i: int) -> Option<(Token, int)> {
    if literal_run(s, i) > 0 {
        Some((Token::Literal(s.subrange(i, i + literal_run(s, i))), i + literal_run(s, i)))
    } else {
        None
    }
}

/// The token that starts at `i`, and the position after it.
pub open spec fn token_at(s: Seq<char>, i: int) -> Option<(Token, int)> {
    if env_token_at(s, i) is Some {
        env_token_at(s, i)
    } else if var_token_at(s, i) is Some {
        var_token_at(s, i)
    } else {
        literal_token_at(s, i)
    }
}

/// The tokens read from `i` on, and the position where reading stops.
pub open spec fn tokens_from(s: Seq<char>, i: int) -> (Seq<Token>, int)
    decreases s.len() - i,
{
    if 0 <= i <= s.len() {
        match token_at(s, i) {
            Some((t, j)) => {
                if i < j <= s.len() {
                    let (rest, e) = tokens_from(s, j);
                    (seq![t] + rest, e)
                } else {
                    (Seq::empty(), i)
                }
            },
            None => (Seq::empty(), i),
        }
    } else {
        (Seq::empty(), i)
    }
}

/// A token of a template.
#[derive(Debug, Clone, PartialEq, Eq, Hash)]
pub enum Variable {
    Literal(String),
    Defined(String),
    Environment(String),
}

impl View for Variable {
    type V = Token;

    open spec fn view(&self) -> Token {
        match self {
            Variable::Literal(s) => Token::Literal(s@),
            Variable::Defined(s) => Token::Defined(s@),
            Variable::Environment(s) => Token::Environment(s@),
        }
    }
}

/// The tokens of a sequence of variables.
pub open spec fn tokens_of(v: Seq<Variable>) -> Seq<Token> {
    v.map_values(|x: Variable| x@)
}

/// Why a template could not be read or rendered.
#[derive(Debug, Clone, PartialEq, Eq)]
pub enum TemplateError {
    NomParseError(String),
    RemainingTemplate(String),
    VariableNotDefined(String),
    /// The environment has no variable of this name; shown as `std::env::var` reports it.
    EnvironmentNotDefined(String),
}

/// Why a template could not be read or rendered, as a mathematical value.
pub enum Failure {
    Remaining(Seq<char>),
    NotDefined(Seq<char>),
    NoEnvironment(Seq<char>),
}

/// `e` is the error that stands for `f`.
pub open spec fn error_is(e: TemplateError, f: Failure) -> bool {
    match f {
        Failure::Remaining(s) => e is RemainingTemplate && e->RemainingTemplate_0@ == s,
        Failure::NotDefined(s) => e is VariableNotDefined && e->VariableNotDefined_0@ == s,
        Failure::NoEnvironment(s) => e is EnvironmentNotDefined && e->EnvironmentNotDefined_0@ == s,
    }
}

/// The tokens of `s`, or the remainder where reading stopped before the end.
pub open spec fn split_spec(s: Seq<char>) -> Result<Seq<Token>, Failure> {
    let (ts, e) = tokens_from(s, 0);
    if e == s.len() {
        Ok(ts)
    } else {
        Err(Failure::Remaining(s.subrange(e, s.len() as int)))
    }
}

/// The text a token stands for, given the variables and the environment.
pub open spec fn assign_spec(
    t: Token,
    vars: Seq<(Seq<char>, Seq<char>)>,
    env: Seq<(Seq<char>, Seq<char>)>,
) -> Result<Seq<char>, Failure> {
    match t {
        Token::Literal(text) => Ok(text),
        Token::Defined(key) => match lookup(vars, key) {
            Some(v) => Ok(v),
            None => Err(Failure::NotDefined(key)),
        },
        Token::Environment(key) => match lookup(env, key) {
            Some(v) => Ok(v),
            None => Err(Failure::NoEnvironment(key)),
        },
    }
}

/// The texts of `ts` joined, or the failure of the first token that has none.
pub open spec fn assign_all(
    ts: Seq<Token>,
    vars: Seq<(Seq<char>, Seq<char>)>,
    env: Seq<(Seq<char>, Seq<char>)>,
) -> Result<Seq<char>, Failure>
    decreases ts.len(),
{
    if ts.len() == 0 {
        Ok(Seq::empty())
    } else {
        match assign_all(ts.drop_last(), vars, env) {
            Ok(prefix) => match assign_spec(ts.last(), vars, env) {
                Ok(text) => Ok(prefix + text),
                Err(f) => Err(f),
            },
            Err(f) => Err(f),
        }
    }
}

/// What rendering `input` gives.
pub open spec fn render_spec(
    input: Seq<char>,
    vars: Seq<(Seq<char>, Seq<char>)>,
    env: Seq<(Seq<char>, Seq<char>)>,
) -> Result<Seq<char>, Failure> {
    match split_spec(input) {
        Ok(ts) => assign_all(ts, vars, env),
        Err(f) => Err(f),
    }
}

/// The view of a map from names to strings.
pub open spec fn string_map(s: Seq<(Seq<char>, String)>) -> Seq<(Seq<char>, Seq<char>)> {
    s.map_values(|e: (Seq<char>, String)| (e.0, e.1@))
}

/// Binding a name and then taking the views of the values is taking the views and then
/// binding the name to the view.
pub proof fn lemma_string_map_bind(s: Seq<(Seq<char>, String)>, k: Seq<char>, v: String)
    ensures
        string_map(crate::destinations::bind(s, k, v)) == crate::destinations::bind(string_map(s), k, v@),
{
    crate::destinations::lemma_find_names(s, string_map(s), k);
    crate::destinations::lemma_find(s, k);
    let a = string_map(crate::destinations::bind(s, k, v));
    let b = crate::destinations::bind(string_map(s), k, v@);
    let i = crate::destinations::find(s, k);
    if i >= 0 {
        assert(a =~= b);
    } else {
        assert(a =~= b);
    }
}

proof fn lemma_lookup_string_map(s: Seq<(Seq<char>, String)>, k: Seq<char>)
    ensures
        match lookup(s, k) {
            Some(v) => lookup(string_map(s), k) == Some(v@),
            None => lookup(string_map(s), k) is None,
        },
{
    crate::destinations::lemma_find_names(s, string_map(s), k);
    crate::destinations::lemma_find(s, k);
}


fn alnum_len(s: &Vec<char>, i: usize) -> (k: usize)
    requires
        i <= s@.len(),
    ensures
        k == alnum_run(s@, i as int),
        i + k <= s@.len(),
{
    let mut j = i;
    while j < s.len() && ('0' <= s[j] && s[j] <= '9' || 'a' <= s[j] && s[j] <= 'z' || 'A' <= s[j] && s[j] <= 'Z')
        invariant
            i <= j <= s@.len(),
            alnum_run(s@, i as int) == (j - i) + alnum_run(s@, j as int),
        decreases s@.len() - j,
    {
        j = j + 1;
    }
    j - i
}

fn literal_len(s: &Vec<char>, i: usize) -> (k: usize)
    requires
        i <= s@.len(),
    ensures
        k == literal_run(s@, i as int),
        i + k <= s@.len(),
{
    let mut j = i;
    while j < s.len() && s[j] != '$' && s[j] != '{'
        invariant
            i <= j <= s@.len(),
            literal_run(s@, i as int) == (j - i) + literal_run(s@, j as int),
        decreases s@.len() - j,
    {
        j = j + 1;
    }
    j - i
}

fn holds(s: &Vec<char>, i: usize, p: &Vec<char>) -> (b: bool)
    requires
        i <= s@.len(),
    ensures
        b == holds_at(s@, i as int, p@),
{
    if p.len() > s.len() - i {
        return false;
    }
    let n = s.len();
    let mut j: usize = 0;
    while j < p.len()
        invariant
            n == s@.len(),
            i + p@.len() <= s@.len(),
            j <= p@.len(),
            forall|k: int| 0 <= k < j ==> s@[i + k] == p@[k],
        decreases p@.len() - j,
    {
        if s[i + j] != p[j] {
            proof {
                assert(s@.subrange(i as int, i + p@.len())[j as int] != p@[j as int]);
            }
            return false;
        }
        j = j + 1;
    }
    proof {
        assert(s@.subrange(i as int, i + p@.len()) =~= p@);
    }
    true
}

fn chars_between(s: &Vec<char>, a: usize, b: usize) -> (res: String)
    requires
        a <= b <= s@.len(),
    ensures
        res@ == s@.subrange(a as int, b as int),
{
    let mut v: Vec<char> = Vec::new();
    let mut j = a;
    while j < b
        invariant
            a <= j <= b <= s@.len(),
            v@ == s@.subrange(a as int, j as int),
        decreases b - j,
    {
        v.push(s[j]);
        proof {
            assert(v@ =~= s@.subrange(a as int, j + 1));
        }
        j = j + 1;
    }
    string_of(v.as_slice())
}

fn placeholder(s: &Vec<char>, i: usize, open: &Vec<char>) -> (res: Option<(String, usize)>)
    requires
        i <= s@.len(),
    ensures
        match res {
            Some((name, j)) => placeholder_at(s@, i as int, open@) == Some((name@, j as int)),
            None => placeholder_at(s@, i as int, open@) is None,
        },
{
    let n = s.len();
    if !holds(s, i, open) {
        return None;
    }
    let start = i + open.len();
    let k = alnum_len(s, start);
    if k > 0 && start + k < s.len() && s[start + k] == '}' {
        let name = chars_between(s, start, start + k);
        Some((name, start + k + 1))
    } else {
        None
    }
}

fn env_token(s: &Vec<char>, i: usize) -> (res: Option<(Variable, usize)>)
    requires
        i <= s@.len(),
    ensures
        match res {
            Some((v, j)) => env_token_at(s@, i as int) == Some((v@, j as int)),
            None => env_token_at(s@, i as int) is None,
        },
{
    let env_upper = vec!['$', '{', 'E', 'N', 'V', ':'];
    let env_lower = vec!['$', '{', 'e', 'n', 'v', ':'];
    proof {
        assert(env_upper@ =~= seq!['$', '{', 'E', 'N', 'V', ':']);
        assert(env_lower@ =~= seq!['$', '{', 'e', 'n', 'v', ':']);
    }
    if let Some((name, j)) = placeholder(s, i, &env_upper) {
        return Some((Variable::Environment(name), j));
    }
    if let Some((name, j)) = placeholder(s, i, &env_lower) {
        return Some((Variable::Environment(name), j));
    }
    None
}

fn var_token(s: &Vec<char>, i: usize) -> (res: Option<(Variable, usize)>)
    requires
        i <= s@.len(),
    ensures
        match res {
            Some((v, j)) => var_token_at(s@, i as int) == Some((v@, j as int)),
            None => var_token_at(s@, i as int) is None,
        },
{
    let var_open = vec!['$', '{'];
    proof {
        assert(var_open@ =~= seq!['$', '{']);
    }
    if let Some((name, j)) = placeholder(s, i, &var_open) {
        Some((Variable::Defined(name), j))
    } else {
        None
    }
}

fn literal_token(s: &Vec<char>, i: usize) -> (res: Option<(Variable, usize)>)
    requires
        i <= s@.len(),
    ensures
        match res {
            Some((v, j)) => literal_token_at(s@, i as int) == Some((v@, j as int)),
            None => literal_token_at(s@, i as int) is None,
        },
{
    let n = s.len();
    let k = literal_len(s, i);
    if k > 0 {
        let text = chars_between(s, i, i + k);
        Some((Variable::Literal(text), i + k))
    } else {
        None
    }
}

fn token(s: &Vec<char>, i: usize) -> (res: Option<(Variable, usize)>)
    requires
        i <= s@.len(),
    ensures
        match res {
            Some((v, j)) => token_at(s@, i as int) == Some((v@, j as int)),
            None => token_at(s@, i as int) is None,
        },
{
    if let Some(r) = env_token(s, i) {
        return Some(r);
    }
    if let Some(r) = var_token(s, i) {
        return Some(r);
    }
    literal_token(s, i)
}

/// A token never ends before it starts, nor after the end.
proof fn lemma_token_advances(s: Seq<char>, i: int)
    requires
        0 <= i <= s.len(),
    ensures
        token_at(s, i) matches Some((t, j)) ==> i < j <= s.len(),
{
    lemma_alnum_run_bound(s, i + 6);
    lemma_alnum_run_bound(s, i + 2);
    lemma_literal_run_bound(s, i);
}

proof fn lemma_alnum_run_bound(s: Seq<char>, i: int)
    ensures
        0 <= i <= s.len() ==> i + alnum_run(s, i) <= s.len(),
    decreases s.len() - i,
{
    if 0 <= i < s.len() && is_alnum(s[i]) {
        lemma_alnum_run_bound(s, i + 1);
    }
}

proof fn lemma_literal_run_bound(s: Seq<char>, i: int)
    ensures
        0 <= i <= s.len() ==> i + literal_run(s, i) <= s.len(),
    decreases s.len() - i,
{
    if 0 <= i < s.len() && is_literal_char(s[i]) {
        lemma_literal_run_bound(s, i + 1);
    }
}

/// Reads the tokens of `s` from `i` on: the tokens, and where reading stopped.
fn read_tokens(s: &Vec<char>) -> (res: (Vec<Variable>, usize))
    ensures
        tokens_of(res.0@) == tokens_from(s@, 0).0,
        res.1 as int == tokens_from(s@, 0).1,
        res.1 <= s@.len(),
{
    let mut out: Vec<Variable> = Vec::new();
    let mut i: usize = 0;
    loop
        invariant
            i <= s@.len(),
            tokens_from(s@, 0) == (tokens_of(out@) + tokens_from(s@, i as int).0, tokens_from(s@, i as int).1),
        decreases s@.len() - i,
    {
        proof { lemma_token_advances(s@, i as int); }
        match token(s, i) {
            Some((v, j)) => {
                let ghost t = v@;
                let ghost before = tokens_of(out@);
                let ghost rest = tokens_from(s@, j as int).0;
                proof {
                    assert(tokens_from(s@, i as int) == (seq![t] + rest, tokens_from(s@, j as int).1));
                }
                out.push(v);
                proof {
                    assert(tokens_of(out@) =~= before.push(t));
                    assert(before.push(t) + rest =~= before + (seq![t] + rest));
                }
                i = j;
            },
            None => {
                proof {
                    assert(tokens_from(s@, i as int) == (Seq::<Token>::empty(), i as int));
                    assert(tokens_of(out@) + Seq::<Token>::empty() =~= tokens_of(out@));
                }
                return (out, i);
            },
        }
    }
}


/// The result of a single-token reader on `s`: the remainder and the token.
pub open spec fn read_one(s: Seq<char>, r: Option<(Token, int)>, res: Option<(String, Variable)>) -> bool {
    match r {
        Some((t, j)) => res matches Some((rest, v)) && v@ == t && rest@ == s.subrange(j, s.len() as int),
        None => res is None,
    }
}

impl Variable {
    /// Reads an environment variable placeholder at the start of `input`.
    pub fn parse_environment_variable(input: &str) -> (res: Option<(String, Variable)>)
        ensures
            read_one(input@, env_token_at(input@, 0), res),
    {
        let s = chars_of(input);
        match env_token(&s, 0) {
            Some((v, j)) => {
                proof { lemma_token_advances(s@, 0); }
                let n = s.len();
                Some((chars_between(&s, j, n), v))
            },
            None => None,
        }
    }

    /// Reads a defined variable placeholder at the start of `input`.
    pub fn parse_variable(input: &str) -> (res: Option<(String, Variable)>)
        ensures
            read_one(input@, var_token_at(input@, 0), res),
    {
        let s = chars_of(input);
        match var_token(&s, 0) {
            Some((v, j)) => {
                proof { lemma_token_advances(s@, 0); }
                let n = s.len();
                Some((chars_between(&s, j, n), v))
            },
            None => None,
        }
    }

    /// Reads literal text at the start of `input`.
    pub fn parse_literal(input: &str) -> (res: Option<(String, Variable)>)
        ensures
            read_one(input@, literal_token_at(input@, 0), res),
    {
        let s = chars_of(input);
        match literal_token(&s, 0) {
            Some((v, j)) => {
                proof { lemma_token_advances(s@, 0); }
                let n = s.len();
                Some((chars_between(&s, j, n), v))
            },
            None => None,
        }
    }

    /// Reads as many tokens as the grammar allows: the remainder, and the tokens read.
    pub fn parse(input: &str) -> (res: (String, Vec<Variable>))
        ensures
            tokens_of(res.1@) == tokens_from(input@, 0).0,
            0 <= tokens_from(input@, 0).1 <= input@.len(),
            res.0@ == input@.subrange(tokens_from(input@, 0).1, input@.len() as int),
    {
        let s = chars_of(input);
        let (tokens, e) = read_tokens(&s);
        let n = s.len();
        (chars_between(&s, e, n), tokens)
    }

    /// The tokens of `input`; an error holding the remainder when the grammar stops
    /// before the end.
    pub fn split(input: &str) -> (res: Result<Vec<Variable>, TemplateError>)
        ensures
            match split_spec(input@) {
                Ok(ts) => res matches Ok(v) && tokens_of(v@) == ts,
                Err(f) => res matches Err(e) && error_is(e, f),
            },
    {
        let (remain, parsed) = Self::parse(input);
        if remain.as_str().unicode_len() == 0 {
            Ok(parsed)
        } else {
            Err(TemplateError::RemainingTemplate(remain))
        }
    }

    /// The text this token stands for: literal text as it is, a defined variable by its
    /// value in `defined`, an environment variable by its value in `env`.
    pub fn assign(&self, defined: &Template, env: &Destinations<String>) -> (res: Result<String, TemplateError>)
        ensures
            match assign_spec(self@, string_map(defined@), string_map(env@)) {
                Ok(text) => res matches Ok(r) && r@ == text,
                Err(f) => res matches Err(e) && error_is(e, f),
            },
    {
        match self {
            Variable::Literal(text) => Ok(text.clone()),
            Variable::Defined(key) => {
                proof { lemma_lookup_string_map(defined@, key@); }
                match defined.vars.get(key.as_str()) {
                    Some(v) => Ok(v.clone()),
                    None => Err(TemplateError::VariableNotDefined(key.clone())),
                }
            },
            Variable::Environment(key) => {
                proof { lemma_lookup_string_map(env@, key@); }
                match env.get(key.as_str()) {
                    Some(v) => Ok(v.clone()),
                    None => Err(TemplateError::EnvironmentNotDefined(key.clone())),
                }
            },
        }
    }
}

/// Values for the variables of templates, by name.
#[derive(Debug)]
pub struct Template {
    vars: Destinations<String>,
}

impl View for Template {
    type V = Seq<(Seq<char>, String)>;

    closed spec fn view(&self) -> Seq<(Seq<char>, String)> {
        self.vars@
    }
}

impl Template {
    /// No variable at all.
    pub fn new() -> (res: Self)
        ensures
            res@ == Seq::<(Seq<char>, String)>::empty(),
    {
        Template { vars: Destinations::new() }
    }

    /// The variables of `pairs`, a later pair with the same name replacing an earlier one.
    pub fn from_pairs(pairs: &[(&str, &str)]) -> (res: Self)
        ensures
            forall|i: int| #![trigger pairs@[i]] 0 <= i < pairs@.len() && (forall|j: int| #![trigger pairs@[j]] i < j < pairs@.len() ==> pairs@[j].0@ != pairs@[i].0@)
                ==> (lookup(res@, pairs@[i].0@) matches Some(v) && v@ == pairs@[i].1@),
            forall|k: Seq<char>| #![trigger lookup(res@, k)] (forall|i: int| #![trigger pairs@[i]] 0 <= i < pairs@.len() ==> pairs@[i].0@ != k)
                ==> lookup(res@, k) is None,
    {
        let mut t = Template::new();
        let mut i: usize = 0;
        while i < pairs.len()
            invariant
                i <= pairs@.len(),
                forall|a: int| #![trigger pairs@[a]] 0 <= a < i && (forall|b: int| #![trigger pairs@[b]] a < b < i ==> pairs@[b].0@ != pairs@[a].0@)
                    ==> (lookup(t@, pairs@[a].0@) matches Some(v) && v@ == pairs@[a].1@),
                forall|k: Seq<char>| #![trigger lookup(t@, k)] (forall|a: int| #![trigger pairs@[a]] 0 <= a < i ==> pairs@[a].0@ != k)
                    ==> lookup(t@, k) is None,
            decreases pairs@.len() - i,
        {
            let (k, v) = pairs[i];
            let ks = crate::text::owned(k);
            let vs = crate::text::owned(v);
            let ghost pre = t@;
            t.insert(ks, vs);
            proof {
                assert forall|a: int| #![trigger pairs@[a]] 0 <= a < i + 1 && (forall|b: int| #![trigger pairs@[b]] a < b < i + 1 ==> pairs@[b].0@ != pairs@[a].0@)
                    implies (lookup(t@, pairs@[a].0@) matches Some(w) && w@ == pairs@[a].1@) by {
                    crate::destinations::lemma_lookup_bind(pre, k@, vs, pairs@[a].0@);
                    if a < i {
                        assert(pairs@[i as int].0@ != pairs@[a].0@);
                    }
                }
                assert forall|kk: Seq<char>| #![trigger lookup(t@, kk)] (forall|a: int| #![trigger pairs@[a]] 0 <= a < i + 1 ==> pairs@[a].0@ != kk)
                    implies lookup(t@, kk) is None by {
                    crate::destinations::lemma_lookup_bind(pre, k@, vs, kk);
                    assert(pairs@[i as int].0@ != kk);
                }
            }
            i = i + 1;
        }
        t
    }

    /// The template that binds each variable as `vars` does.
    pub fn from_vars(vars: Destinations<String>) -> (res: Self)
        ensures
            res@ == vars@,
    {
        Template { vars }
    }

    /// The value of each variable.
    pub fn vars(&self) -> (res: &Destinations<String>)
        ensures
            res@ == self@,
    {
        &self.vars
    }

    /// Binds the variable `name` to `value`.
    pub fn insert(&mut self, name: String, value: String)
        ensures
            final(self)@ == crate::destinations::bind(old(self)@, name@, value),
    {
        self.vars.insert(name, value);
    }

    /// The value of the variable `name`, if it has one.
    pub fn get(&self, name: &str) -> (res: Option<&String>)
        ensures
            match res {
                Some(v) => lookup(self@, name@) == Some(*v),
                None => lookup(self@, name@) is None,
            },
    {
        self.vars.get(name)
    }

    /// `input` with each placeholder replaced by its value; the first token without a
    /// value, or a remainder the grammar cannot read, makes it fail.
    pub fn render(&self, input: &str, env: &Destinations<String>) -> (res: Result<String, TemplateError>)
        ensures
            match render_spec(input@, string_map(self@), string_map(env@)) {
                Ok(text) => res matches Ok(r) && r@ == text,
                Err(f) => res matches Err(e) && error_is(e, f),
            },
    {
        let variables = match Variable::split(input) {
            Ok(v) => v,
            Err(e) => return Err(e),
        };
        let ghost ts = tokens_of(variables@);
        let mut out = String::new();
        let mut i: usize = 0;
        while i < variables.len()
            invariant
                i <= variables@.len(),
                ts == tokens_of(variables@),
                split_spec(input@) == Ok::<Seq<Token>, Failure>(ts),
                assign_all(ts.subrange(0, i as int), string_map(self@), string_map(env@)) == Ok::<Seq<char>, Failure>(out@),
            decreases variables@.len() - i,
        {
            proof {
                assert(ts.subrange(0, i + 1).drop_last() =~= ts.subrange(0, i as int));
            }
            match variables[i].assign(self, env) {
                Ok(text) => {
                    proof {
                        let p = ts.subrange(0, i + 1);
                        assert(p.last() == ts[i as int]);
                        assert(ts[i as int] == variables@[i as int]@);
                    }
                    out.append(text.as_str());
                },
                Err(e) => {
                    proof {
                        let p = ts.subrange(0, i + 1);
                        assert(p.last() == ts[i as int]);
                        assert(ts[i as int] == variables@[i as int]@);
                        assert(p.drop_last() =~= ts.subrange(0, i as int));
                        let f = assign_spec(ts[i as int], string_map(self@), string_map(env@))->Err_0;
                        assert(assign_all(p, string_map(self@), string_map(env@)) == Err::<Seq<char>, Failure>(f));
                        lemma_assign_all_fails(ts, (i + 1) as int, string_map(self@), string_map(env@));
                        assert(error_is(e, f));
                    }
                    return Err(e);
                },
            }
            i = i + 1;
        }
        proof {
            assert(ts.subrange(0, i as int) =~= ts);
        }
        Ok(out)
    }

    /// Renders the text of `input`, invalid UTF-8 replaced as `String::from_utf8_lossy`
    /// does.
    pub fn render_as_string(&self, input: &[u8], env: &Destinations<String>) -> (res: Result<String, TemplateError>)
        ensures
            match render_spec(crate::evaluate::utf8_lossy(input@), string_map(self@), string_map(env@)) {
                Ok(text) => res matches Ok(r) && r@ == text,
                Err(f) => res matches Err(e) && error_is(e, f),
            },
    {
        let text = crate::evaluate::lossy_text(input);
        self.render(text.as_str(), env)
    }
}

/// Once a prefix of the tokens fails, every longer prefix fails the same way.
proof fn lemma_assign_all_fails(
    ts: Seq<Token>,
    n: int,
    vars: Seq<(Seq<char>, Seq<char>)>,
    env: Seq<(Seq<char>, Seq<char>)>,
)
    requires
        0 <= n <= ts.len(),
        assign_all(ts.subrange(0, n), vars, env) is Err,
    ensures
        assign_all(ts, vars, env) == assign_all(ts.subrange(0, n), vars, env),
    decreases ts.len() - n,
{
    if n < ts.len() {
        assert(ts.subrange(0, n + 1).drop_last() =~= ts.subrange(0, n));
        lemma_assign_all_fails(ts, n + 1, vars, env);
    } else {
        assert(ts.subrange(0, n) =~= ts);
    }
}

impl TemplateError {
    /// The text of the error.
    pub open spec fn message_view(&self) -> Seq<char> {
        match self {
            TemplateError::NomParseError(s) => s@,
            TemplateError::RemainingTemplate(s) => "remaining template: "@ + s@,
            TemplateError::VariableNotDefined(s) => "variable `"@ + s@ + "` is not defined"@,
            TemplateError::EnvironmentNotDefined(_) => "environment variable not found"@,
        }
    }

    /// The text of the error, as it is displayed.
    pub fn message(&self) -> (res: String)
        ensures
            res@ == self.message_view(),
    {
        match self {
            TemplateError::NomParseError(s) => s.clone(),
            TemplateError::RemainingTemplate(s) => {
                let mut m = String::from_str("remaining template: ");
                m.append(s.as_str());
                m
            },
            TemplateError::VariableNotDefined(s) => {
                let mut m = String::from_str("variable `");
                m.append(s.as_str());
                m.append("` is not defined");
                m
            },
            TemplateError::EnvironmentNotDefined(_) => String::from_str("environment variable not found"),
        }
    }
}

impl Clone for Template {
    fn clone(&self) -> (res: Self)
        ensures
            res@ == self@,
    {
        let vars = self.vars.clone();
        proof {
            assert(vars@ =~= self.vars@);
        }
        Template { vars }
    }
}

impl Default for Template {
    fn default() -> (res: Self)
        ensures
            res@ == Seq::<(Seq<char>, String)>::empty(),
    {
        Template::new()
    }
}

} // verus!
