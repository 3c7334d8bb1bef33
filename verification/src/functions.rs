//! User-defined functions: the registry the host hands to the engine, and
//! the macro expander that substitutes calls to registered functions with
//! their parenthesized, parameter-substituted bodies.

use crate::parser::{lemma_word_run_end_bounds, word_run_end};
use crate::text::{
    chars_to_string, is_ident_start, is_space, is_word, spec_is_ident_start, spec_is_space,
    spec_is_word, str_eq, str_to_chars,
};
use vstd::prelude::*;

verus! {

broadcast use vstd::std_specs::vec::group_vec_axioms, vstd::seq::group_seq_axioms;

/// A user-defined function: its formal parameter names and its textual body
/// expression. The engine only reads such values; defining them is the
/// host's business.
#[derive(Debug, PartialEq)]
pub struct CustomFunction {
    pub parameters: Vec<String>,
    pub expression: String,
}

impl Clone for CustomFunction {
    fn clone(&self) -> (r: Self)
        ensures
            func_view(r) == func_view(*self),
    {
        CustomFunction { parameters: self.parameters.clone(), expression: self.expression.clone() }
    }
}

/// The mathematical image of a [`CustomFunction`].
pub struct CustomFunctionV {
    pub parameters: Seq<Seq<char>>,
    pub expression: Seq<char>,
}

pub open spec fn func_view(f: CustomFunction) -> CustomFunctionV {
    CustomFunctionV { parameters: f.parameters.deep_view(), expression: f.expression@ }
}

/// The image of a registry: the name/function pairs in registration order.
pub open spec fn pairs_view(es: Seq<(String, CustomFunction)>) -> Seq<
    (Seq<char>, CustomFunctionV),
> {
    es.map_values(|e: (String, CustomFunction)| (e.0@, func_view(e.1)))
}

/// The function registered under `name`: the first pair carrying it.
pub open spec fn spec_lookup(fs: Seq<(Seq<char>, CustomFunctionV)>, name: Seq<char>) -> Option<
    CustomFunctionV,
>
    decreases fs.len(),
{
    if fs.len() == 0 {
        None
    } else if fs[0].0 == name {
        Some(fs[0].1)
    } else {
        spec_lookup(fs.skip(1), name)
    }
}

/// A failure while defining a function.
#[derive(Debug, Clone, PartialEq)]
pub enum DefineError {
    /// The definition does not have the shape `name(p1, p2, ...) = body`.
    Malformed,
    /// Two formal parameters share a name.
    DuplicateParameter,
    /// The name is already registered.
    AlreadyDefined,
}

impl DefineError {
    /// A human-readable description of the failure.
    pub fn message(&self) -> (r: String)
        ensures
            r@ == match *self {
                DefineError::Malformed => "Function definition error, should be name(param1, param2, ...) = expression"@,
                DefineError::DuplicateParameter => "Parameter names must be unique"@,
                DefineError::AlreadyDefined => "Function already exists"@,
            },
    {
        match self {
            DefineError::Malformed => "Function definition error, should be name(param1, param2, ...) = expression".to_owned(),
            DefineError::DuplicateParameter => "Parameter names must be unique".to_owned(),
            DefineError::AlreadyDefined => "Function already exists".to_owned(),
        }
    }
}

/// The registry of user-defined functions, passed explicitly to the engine.
/// Its image is the sequence of name/function pairs in registration order;
/// lookups take the first pair with the sought name, and registration
/// refuses a name already present, so names are in fact unique.
pub struct FunctionTable {
    entries: Vec<(String, CustomFunction)>,
}

impl View for FunctionTable {
    type V = Seq<(Seq<char>, CustomFunctionV)>;

    closed spec fn view(&self) -> Seq<(Seq<char>, CustomFunctionV)> {
        pairs_view(self.entries@)
    }
}

impl FunctionTable {
    /// An empty registry.
    pub fn new() -> (t: FunctionTable)
        ensures
            t@ == Seq::<(Seq<char>, CustomFunctionV)>::empty(),
    {
        let t = FunctionTable { entries: Vec::new() };
        proof {
            assert(t@ =~= Seq::<(Seq<char>, CustomFunctionV)>::empty());
        }
        t
    }

    /// The function registered under `name`, if any.
    pub fn lookup(&self, name: &str) -> (r: Option<&CustomFunction>)
        ensures
            match r {
                Some(f) => spec_lookup(self@, name@) == Some(func_view(*f)),
                None => spec_lookup(self@, name@) is None,
            },
    {
        let n = self.entries.len();
        let mut k: usize = 0;
        proof {
            assert(self@.skip(0) =~= self@);
        }
        while k < n
            invariant
                k <= n == self.entries@.len(),
                spec_lookup(self@, name@) == spec_lookup(self@.skip(k as int), name@),
        decreases n - k,
        {
            proof {
                assert(self@.skip(k as int)[0] == self@[k as int]);
                assert(self@[k as int].0 == self.entries@[k as int].0@);
                assert(self@.skip(k as int).skip(1) =~= self@.skip(k as int + 1));
            }
            if str_eq(self.entries[k].0.as_str(), name) {
                return Some(&self.entries[k].1);
            }
            k = k + 1;
        }
        proof {
            assert(self@.skip(n as int) =~= Seq::<(Seq<char>, CustomFunctionV)>::empty());
        }
        None
    }

    /// Registers a function under `name`. Fails, leaving the registry
    /// unchanged, exactly when the name is already registered.
    pub fn register(&mut self, name: &str, func: CustomFunction) -> (r: Result<(), DefineError>)
        ensures
            match r {
                Ok(()) => spec_lookup(old(self)@, name@) is None && final(self)@ == old(
                    self,
                )@.push((name@, func_view(func))),
                Err(e) => e == DefineError::AlreadyDefined && spec_lookup(old(self)@, name@)
                    is Some && final(self)@ == old(self)@,
            },
    {
        if self.lookup(name).is_some() {
            return Err(DefineError::AlreadyDefined);
        }
        let ghost old_view = self@;
        let owned_name = name.to_owned();
        let ghost fv = func_view(func);
        self.entries.push((owned_name, func));
        proof {
            assert(self@ =~= old_view.push((name@, fv)));
        }
        Ok(())
    }
}

/// Whether `name` is registered in `table`.
pub fn is_function_defined(table: &FunctionTable, name: &str) -> (r: bool)
    ensures
        r == (spec_lookup(table@, name@) is Some),
{
    table.lookup(name).is_some()
}

/// All registered functions, as name/function pairs in registration order.
pub fn list_custom_functions(table: &FunctionTable) -> (r: Vec<(String, CustomFunction)>)
    ensures
        pairs_view(r@) == table@,
{
    let n = table.entries.len();
    let mut out: Vec<(String, CustomFunction)> = Vec::new();
    let mut k: usize = 0;
    while k < n
        invariant
            k <= n == table.entries@.len(),
            out@.len() == k,
            forall|m: int| 0 <= m < k ==> pairs_view(out@)[m] == table@[m],
        decreases n - k,
    {
        let name = table.entries[k].0.clone();
        let func = table.entries[k].1.clone();
        let ghost out_old = out@;
        out.push((name, func));
        proof {
            assert forall|m: int| 0 <= m < k + 1 implies pairs_view(out@)[m] == table@[m] by {
                if m < k {
                    assert(out@[m] == out_old[m]);
                }
            }
        }
        k = k + 1;
    }
    proof {
        assert(pairs_view(out@) =~= table@);
    }
    out
}


/// A failure of macro expansion.
#[derive(Debug, Clone, PartialEq)]
pub enum ExpandError {
    /// A call to a registered function with the wrong number of arguments.
    ArgumentCountMismatch,
}

impl ExpandError {
    /// A human-readable description of the failure.
    pub fn message(&self) -> (r: String)
        ensures
            r@ == "Custom function argument count mismatch"@,
    {
        "Custom function argument count mismatch".to_owned()
    }
}

/// How many passes of textual substitution the expander makes at most before
/// giving up on reaching a fixpoint, so that self-referential definitions
/// cannot make it loop forever.
pub const EXPANSION_ROUNDS: u64 = 20;

/// The end of the maximal run of whitespace starting at `i`.
pub open spec fn space_run_end(s: Seq<char>, i: int, end: int) -> int
    decreases end - i,
{
    if !(0 <= i && i < end && end <= s.len()) {
        i
    } else if spec_is_space(s[i]) {
        space_run_end(s, i + 1, end)
    } else {
        i
    }
}

pub proof fn lemma_space_run_end_bounds(s: Seq<char>, i: int, end: int)
    requires
        0 <= i <= end <= s.len(),
    ensures
        i <= space_run_end(s, i, end) <= end,
    decreases end - i,
{
    if i < end && spec_is_space(s[i]) {
        lemma_space_run_end_bounds(s, i + 1, end);
    }
}

/// The end of the maximal run of characters that are not parentheses.
pub open spec fn nonparen_run_end(s: Seq<char>, i: int, end: int) -> int
    decreases end - i,
{
    if !(0 <= i && i < end && end <= s.len()) {
        i
    } else if s[i] != '(' && s[i] != ')' {
        nonparen_run_end(s, i + 1, end)
    } else {
        i
    }
}

pub proof fn lemma_nonparen_run_end_bounds(s: Seq<char>, i: int, end: int)
    requires
        0 <= i <= end <= s.len(),
    ensures
        i <= nonparen_run_end(s, i, end) <= end,
    decreases end - i,
{
    if i < end && s[i] != '(' && s[i] != ')' {
        lemma_nonparen_run_end_bounds(s, i + 1, end);
    }
}

/// The position of the first comma in `[i, end)`, or `end`.
pub open spec fn comma_idx(s: Seq<char>, i: int, end: int) -> int
    decreases end - i,
{
    if !(0 <= i && i < end && end <= s.len()) {
        end
    } else if s[i] == ',' {
        i
    } else {
        comma_idx(s, i + 1, end)
    }
}


/// The first position at or after `i` from which `[.., end)` is all
/// whitespace: where trailing whitespace starts.
pub open spec fn trim_end_at(s: Seq<char>, i: int, end: int) -> int
    decreases end - i,
{
    if !(0 <= i && i < end && end <= s.len()) {
        i
    } else if spec_is_space(s[end - 1]) {
        trim_end_at(s, i, end - 1)
    } else {
        end
    }
}

/// `s[i..end]` with surrounding whitespace stripped.
pub open spec fn trim_range(s: Seq<char>, i: int, end: int) -> Seq<char> {
    let a = space_run_end(s, i, end);
    let b = trim_end_at(s, a, end);
    s.subrange(a, b)
}

/// The comma-separated argument texts of `s[i..end]`, each stripped of
/// surrounding whitespace. Splitting always yields one more segment than
/// there are commas; an empty list is one empty segment.
pub open spec fn split_args(s: Seq<char>, i: int, end: int) -> Seq<Seq<char>>
    decreases end - i,
{
    let j = comma_idx(s, i, end);
    if !(0 <= i && i <= end && end <= s.len()) || j < i || j >= end {
        seq![trim_range(s, i, end)]
    } else {
        seq![trim_range(s, i, j)] + split_args(s, j + 1, end)
    }
}

/// A word boundary before position `p` of `s`: exactly one of the character
/// before `p` and the character at `p` is an identifier character, a
/// position outside the text counting as none.
pub open spec fn boundary_at(s: Seq<char>, p: int) -> bool {
    (0 <= p - 1 < s.len() && spec_is_word(s[p - 1])) != (0 <= p < s.len() && spec_is_word(s[p]))
}

/// A word-boundary-safe occurrence of the (non-empty) name `param` at
/// position `i` of `body`.
pub open spec fn subst_match_at(body: Seq<char>, i: int, param: Seq<char>) -> bool {
    &&& param.len() >= 1
    &&& 0 <= i
    &&& i + param.len() <= body.len()
    &&& body.subrange(i, i + param.len()) == param
    &&& boundary_at(body, i)
    &&& boundary_at(body, i + param.len())
}

/// Replaces, left to right and without rescanning what was inserted, each
/// word-boundary-safe occurrence of `param` in `body[i..]` with `arg`
/// wrapped in parentheses.
pub open spec fn spec_subst_from(body: Seq<char>, i: int, param: Seq<char>, arg: Seq<char>) -> Seq<
    char,
>
    decreases body.len() - i,
{
    if !(0 <= i && i < body.len()) {
        Seq::empty()
    } else if subst_match_at(body, i, param) {
        seq!['('] + arg + seq![')'] + spec_subst_from(body, i + param.len(), param, arg)
    } else {
        seq![body[i]] + spec_subst_from(body, i + 1, param, arg)
    }
}

/// [`spec_subst_from`] over the whole body.
pub open spec fn spec_subst(body: Seq<char>, param: Seq<char>, arg: Seq<char>) -> Seq<char> {
    spec_subst_from(body, 0, param, arg)
}

/// Substitutes each formal parameter in turn by its argument text.
pub open spec fn spec_subst_all(
    body: Seq<char>,
    params: Seq<Seq<char>>,
    argts: Seq<Seq<char>>,
    k: int,
) -> Seq<char>
    decreases params.len() - k,
{
    if !(0 <= k && k < params.len() && k < argts.len()) {
        body
    } else {
        spec_subst_all(spec_subst(body, params[k], argts[k]), params, argts, k + 1)
    }
}

/// One substitution pass over `s[i..]`: scan for the pattern of a name
/// followed (after optional whitespace) by a parenthesis-free argument list
/// in parentheses. A match whose name is registered is replaced by the
/// function's body, each parameter substituted by its parenthesized argument
/// text and the whole wrapped in parentheses - unless the argument count
/// differs from the parameter count, which fails the expansion. A match
/// whose name is not registered is kept as it stands, and scanning resumes
/// after it either way.
pub open spec fn spec_pass(s: Seq<char>, i: int, fs: Seq<(Seq<char>, CustomFunctionV)>) -> Result<
    Seq<char>,
    ExpandError,
>
    decreases s.len() - i,
        via spec_pass_dec
{
    if !(0 <= i && i < s.len()) {
        Ok(Seq::empty())
    } else {
        if spec_is_ident_start(s[i]) {
            let w = word_run_end(s, i, s.len() as int);
            let p = space_run_end(s, w, s.len() as int);
            if p < s.len() && s[p] == '(' {
                let e = nonparen_run_end(s, p + 1, s.len() as int);
                if e < s.len() && s[e] == ')' {
                    let name = s.subrange(i, w);
                    match spec_lookup(fs, name) {
                        Some(f) => {
                            let argts = split_args(s, p + 1, e);
                            if argts.len() != f.parameters.len() {
                                Err(ExpandError::ArgumentCountMismatch)
                            } else {
                                let body = spec_subst_all(f.expression, f.parameters, argts, 0);
                                match spec_pass(s, e + 1, fs) {
                                    Ok(rest) => Ok(seq!['('] + body + seq![')'] + rest),
                                    Err(er) => Err(er),
                                }
                            }
                        },
                        None => match spec_pass(s, e + 1, fs) {
                            Ok(rest) => Ok(s.subrange(i, e + 1) + rest),
                            Err(er) => Err(er),
                        },
                    }
                } else {
                    match spec_pass(s, i + 1, fs) {
                        Ok(rest) => Ok(seq![s[i]] + rest),
                        Err(er) => Err(er),
                    }
                }
            } else {
                match spec_pass(s, i + 1, fs) {
                    Ok(rest) => Ok(seq![s[i]] + rest),
                    Err(er) => Err(er),
                }
            }
        } else {
            match spec_pass(s, i + 1, fs) {
                Ok(rest) => Ok(seq![s[i]] + rest),
                Err(er) => Err(er),
            }
        }
    }
}

#[via_fn]
proof fn spec_pass_dec(s: Seq<char>, i: int, fs: Seq<(Seq<char>, CustomFunctionV)>) {
    if 0 <= i && i < s.len() {
        lemma_word_run_end_bounds(s, i, s.len() as int);
        let w = word_run_end(s, i, s.len() as int);
        lemma_space_run_end_bounds(s, w, s.len() as int);
        let p = space_run_end(s, w, s.len() as int);
        if p + 1 <= s.len() {
            lemma_nonparen_run_end_bounds(s, p + 1, s.len() as int);
        }
    }
}

/// Appends `chars[start..end]` to `out`.
fn push_range(out: &mut Vec<char>, chars: &Vec<char>, start: usize, end: usize)
    requires
        start <= end <= chars@.len(),
    ensures
        final(out)@ == old(out)@ + chars@.subrange(start as int, end as int),
{
    let mut j = start;
    while j < end
        invariant
            start <= j <= end <= chars@.len(),
            out@ == old(out)@ + chars@.subrange(start as int, j as int),
        decreases end - j,
    {
        out.push(chars[j]);
        j = j + 1;
        proof {
            assert(out@ =~= old(out)@ + chars@.subrange(start as int, j as int));
        }
    }
    proof {
        assert(out@ =~= old(out)@ + chars@.subrange(start as int, end as int));
    }
}

/// Decides [`subst_match_at`]: a word-boundary-safe occurrence of `param` at
/// position `i` of `body`.
fn subst_match(body: &Vec<char>, i: usize, param: &Vec<char>) -> (r: bool)
    requires
        i <= body@.len(),
    ensures
        r == subst_match_at(body@, i as int, param@),
{
    let plen = param.len();
    let blen = body.len();
    if plen == 0 {
        return false;
    }
    if blen - i < plen {
        return false;
    }
    let mut k: usize = 0;
    while k < plen
        invariant
            k <= plen == param@.len(),
            i + plen <= blen == body@.len(),
            forall|m: int| 0 <= m < k ==> body@[i + m] == param@[m],
        decreases plen - k,
    {
        if body[i + k] != param[k] {
            proof {
                if body@.subrange(i as int, i as int + plen as int) == param@ {
                    assert(body@.subrange(i as int, i as int + plen as int)[k as int] == body@[i
                        + k]);
                }
            }
            return false;
        }
        k = k + 1;
    }
    proof {
        assert(body@.subrange(i as int, i as int + plen as int) =~= param@);
    }
    let left = i > 0 && is_word(body[i - 1]);
    let right = is_word(body[i]);
    let j = i + plen;
    let left2 = is_word(body[j - 1]);
    let right2 = j < blen && is_word(body[j]);
    (left != right) && (left2 != right2)
}

/// Replaces each word-boundary-safe occurrence of `param` in `body` with the
/// text `chars[a..b]` wrapped in parentheses: exactly [`spec_subst`].
fn subst(body: &Vec<char>, param: &Vec<char>, chars: &Vec<char>, a: usize, b: usize) -> (r: Vec<
    char,
>)
    requires
        a <= b <= chars@.len(),
    ensures
        r@ == spec_subst(body@, param@, chars@.subrange(a as int, b as int)),
{
    let ghost argv = chars@.subrange(a as int, b as int);
    let mut out: Vec<char> = Vec::new();
    let mut i: usize = 0;
    while i < body.len()
        invariant
            i <= body@.len(),
            a <= b <= chars@.len(),
            argv == chars@.subrange(a as int, b as int),
            spec_subst(body@, param@, argv) == out@ + spec_subst_from(
                body@,
                i as int,
                param@,
                argv,
            ),
        decreases body@.len() - i,
    {
        let ghost out_old = out@;
        let ghost i0 = i as int;
        if subst_match(body, i, param) {
            out.push('(');
            push_range(&mut out, chars, a, b);
            out.push(')');
            proof {
                assert(out@ =~= out_old + (seq!['('] + argv + seq![')']));
                assert(out_old + (seq!['('] + argv + seq![')'] + spec_subst_from(
                    body@,
                    i0 + param@.len(),
                    param@,
                    argv,
                )) =~= out@ + spec_subst_from(body@, i0 + param@.len(), param@, argv));
            }
            i = i + param.len();
        } else {
            out.push(body[i]);
            proof {
                assert(out_old + (seq![body@[i0]] + spec_subst_from(body@, i0 + 1, param@, argv))
                    =~= out@ + spec_subst_from(body@, i0 + 1, param@, argv));
            }
            i = i + 1;
        }
    }
    proof {
        assert(out@ + Seq::<char>::empty() =~= out@);
    }
    out
}

/// Compares two character vectors.
fn chars_eq(x: &Vec<char>, y: &Vec<char>) -> (r: bool)
    ensures
        r == (x@ == y@),
{
    let n = x.len();
    if y.len() != n {
        return false;
    }
    let mut k: usize = 0;
    while k < n
        invariant
            k <= n == x@.len() && n == y@.len(),
            forall|m: int| 0 <= m < k ==> x@[m] == y@[m],
        decreases n - k,
    {
        if x[k] != y[k] {
            return false;
        }
        k = k + 1;
    }
    proof {
        assert(x@ =~= y@);
    }
    true
}

/// Up to `k` substitution passes, stopping early at a fixpoint.
pub open spec fn spec_expand_iter(
    s: Seq<char>,
    fs: Seq<(Seq<char>, CustomFunctionV)>,
    k: nat,
) -> Result<Seq<char>, ExpandError>
    decreases k,
{
    if k == 0 {
        Ok(s)
    } else {
        match spec_pass(s, 0, fs) {
            Err(e) => Err(e),
            Ok(t) => if t == s {
                Ok(s)
            } else {
                spec_expand_iter(t, fs, (k - 1) as nat)
            },
        }
    }
}

/// The expansion of `s` against the registry: substitution passes iterated
/// to a fixpoint, capped at [`EXPANSION_ROUNDS`] passes.
pub open spec fn spec_expand(s: Seq<char>, fs: Seq<(Seq<char>, CustomFunctionV)>) -> Result<
    Seq<char>,
    ExpandError,
> {
    spec_expand_iter(s, fs, EXPANSION_ROUNDS as nat)
}

/// The text of one trimmed argument window.
pub open spec fn seg_view(s: Seq<char>, sg: (usize, usize)) -> Seq<char> {
    s.subrange(sg.0 as int, sg.1 as int)
}

/// The texts of a sequence of trimmed argument windows.
pub open spec fn segs_view(s: Seq<char>, segs: Seq<(usize, usize)>) -> Seq<Seq<char>> {
    segs.map_values(|sg: (usize, usize)| seg_view(s, sg))
}

/// Whether two entries of the sequence are equal.
pub open spec fn has_duplicate(xs: Seq<Seq<char>>) -> bool {
    exists|i: int, j: int| 0 <= i < j < xs.len() && xs[i] == xs[j]
}

/// The position of the first `)` in `[i, end)`, or `end`.
pub open spec fn close_idx(s: Seq<char>, i: int, end: int) -> int
    decreases end - i,
{
    if !(0 <= i && i < end && end <= s.len()) {
        end
    } else if s[i] == ')' {
        i
    } else {
        close_idx(s, i + 1, end)
    }
}

/// A definition parsed from the shape `name(p1, p2, ...) = body`: leading
/// whitespace, an identifier, optional whitespace, a parameter list up to
/// the first `)`, then `=` and a non-empty body; name, parameters and body
/// are stripped of surrounding whitespace. A parameter list that is blank
/// is empty; otherwise it splits on commas. Two equal parameter names fail
/// the definition.
pub open spec fn spec_parse_definition(s: Seq<char>) -> Result<
    (Seq<char>, Seq<Seq<char>>, Seq<char>),
    DefineError,
> {
    let n = s.len() as int;
    let a = space_run_end(s, 0, n);
    if a >= n || !spec_is_ident_start(s[a]) {
        Err(DefineError::Malformed)
    } else {
        let w = word_run_end(s, a, n);
        let b = space_run_end(s, w, n);
        if b >= n || s[b] != '(' {
            Err(DefineError::Malformed)
        } else {
            let rp = close_idx(s, b + 1, n);
            if rp >= n {
                Err(DefineError::Malformed)
            } else {
                let c = space_run_end(s, rp + 1, n);
                if c >= n || s[c] != '=' {
                    Err(DefineError::Malformed)
                } else {
                    let body = trim_range(s, c + 1, n);
                    if body.len() == 0 {
                        Err(DefineError::Malformed)
                    } else {
                        let params = if trim_range(s, b + 1, rp).len() == 0 {
                            Seq::<Seq<char>>::empty()
                        } else {
                            split_args(s, b + 1, rp)
                        };
                        if has_duplicate(params) {
                            Err(DefineError::DuplicateParameter)
                        } else {
                            Ok((s.subrange(a, w), params, body))
                        }
                    }
                }
            }
        }
    }
}

/// One substitution pass over the whole text: exactly [`spec_pass`].
fn expand_pass(chars: &Vec<char>, funcs: &FunctionTable) -> (r: Result<Vec<char>, ExpandError>)
    ensures
        match r {
            Ok(out) => spec_pass(chars@, 0, funcs@) == Ok::<Seq<char>, ExpandError>(out@),
            Err(e) => spec_pass(chars@, 0, funcs@) == Err::<Seq<char>, ExpandError>(e),
        },
{
    let ghost s = chars@;
    let ghost fs = funcs@;
    let n = chars.len();
    let mut out: Vec<char> = Vec::new();
    let mut i: usize = 0;
    proof {
        match spec_pass(s, 0, fs) {
            Ok(rest) => {
                assert(out@ + rest =~= rest);
            },
            Err(_) => {},
        }
    }
    while i < n
        invariant
            i <= n == chars@.len(),
            s == chars@,
            fs == funcs@,
            spec_pass(s, 0, fs) == match spec_pass(s, i as int, fs) {
                Ok(rest) => Ok::<Seq<char>, ExpandError>(out@ + rest),
                Err(e) => Err::<Seq<char>, ExpandError>(e),
            },
        decreases n - i,
    {
        let ghost out_old = out@;
        let ghost i0 = i as int;
        let c = chars[i];
        let mut plain = true;
        if is_ident_start(c) {
            // the maximal identifier run starting here
            let mut w = i + 1;
            proof {
                assert(word_run_end(s, i0, n as int) == word_run_end(s, i0 + 1, n as int));
            }
            while w < n && is_word(chars[w])
                invariant
                    i < w <= n == chars@.len(),
                    s == chars@,
                    word_run_end(s, i as int, n as int) == word_run_end(s, w as int, n as int),
                decreases n - w,
            {
                w = w + 1;
            }
            proof {
                assert(word_run_end(s, w as int, n as int) == w);
            }
            // optional whitespace
            let mut p = w;
            while p < n && is_space(chars[p])
                invariant
                    w <= p <= n == chars@.len(),
                    s == chars@,
                    space_run_end(s, w as int, n as int) == space_run_end(s, p as int, n as int),
                decreases n - p,
            {
                p = p + 1;
            }
            proof {
                assert(space_run_end(s, p as int, n as int) == p);
            }
            if p < n && chars[p] == '(' {
                // a parenthesis-free argument list
                let mut e = p + 1;
                while e < n && chars[e] != '(' && chars[e] != ')'
                    invariant
                        p < e <= n == chars@.len(),
                        s == chars@,
                        nonparen_run_end(s, p as int + 1, n as int) == nonparen_run_end(
                            s,
                            e as int,
                            n as int,
                        ),
                    decreases n - e,
                {
                    e = e + 1;
                }
                proof {
                    assert(nonparen_run_end(s, e as int, n as int) == e);
                }
                if e < n && chars[e] == ')' {
                    plain = false;
                    let name_s = chars_to_string(chars, i, w);
                    match funcs.lookup(name_s.as_str()) {
                        Some(f) => {
                            let ghost fv = func_view(*f);
                            let ghost argts = split_args(s, p as int + 1, e as int);
                            // split the argument list on commas, trimming each
                            // segment to its window [a2, b2)
                            let mut segs: Vec<(usize, usize)> = Vec::new();
                            let mut cur = p + 1;
                            let mut done = false;
                            while !done
                                invariant
                                    p < cur <= e < n == chars@.len(),
                                    s == chars@,
                                    forall|m: int|
                                        0 <= m < segs@.len() ==> (#[trigger] segs@[m]).0
                                            <= segs@[m].1 <= chars@.len(),
                                    !done ==> argts == segs_view(s, segs@) + split_args(
                                        s,
                                        cur as int,
                                        e as int,
                                    ),
                                    done ==> argts == segs_view(s, segs@),
                                decreases e - cur + (if done { 0int } else { 1int }),
                            {
                                // the next comma, if any
                                let mut j = cur;
                                while j < e && chars[j] != ','
                                    invariant
                                        cur <= j <= e <= chars@.len(),
                                        s == chars@,
                                        comma_idx(s, cur as int, e as int) == comma_idx(
                                            s,
                                            j as int,
                                            e as int,
                                        ),
                                    decreases e - j,
                                {
                                    j = j + 1;
                                }
                                proof {
                                    assert(comma_idx(s, j as int, e as int) == if j < e {
                                        j as int
                                    } else {
                                        e as int
                                    });
                                }
                                // trim the segment [cur, j)
                                let mut a2 = cur;
                                while a2 < j && is_space(chars[a2])
                                    invariant
                                        cur <= a2 <= j <= chars@.len(),
                                        s == chars@,
                                        space_run_end(s, cur as int, j as int) == space_run_end(
                                            s,
                                            a2 as int,
                                            j as int,
                                        ),
                                    decreases j - a2,
                                {
                                    a2 = a2 + 1;
                                }
                                proof {
                                    assert(space_run_end(s, a2 as int, j as int) == a2);
                                }
                                let mut b2 = j;
                                while b2 > a2 && is_space(chars[b2 - 1])
                                    invariant
                                        a2 <= b2 <= j <= chars@.len(),
                                        s == chars@,
                                        trim_end_at(s, a2 as int, j as int) == trim_end_at(
                                            s,
                                            a2 as int,
                                            b2 as int,
                                        ),
                                    decreases b2 - a2,
                                {
                                    b2 = b2 - 1;
                                }
                                proof {
                                    assert(trim_end_at(s, a2 as int, b2 as int) == b2);
                                    assert(trim_range(s, cur as int, j as int) == s.subrange(
                                        a2 as int,
                                        b2 as int,
                                    ));
                                }
                                let ghost segs_old = segs@;
                                segs.push((a2, b2));
                                proof {
                                    assert(segs_view(s, segs@) =~= segs_view(s, segs_old).push(
                                        s.subrange(a2 as int, b2 as int),
                                    ));
                                }
                                if j < e {
                                    proof {
                                        assert(split_args(s, cur as int, e as int) == seq![
                                            trim_range(s, cur as int, j as int)] + split_args(
                                            s,
                                            j as int + 1,
                                            e as int,
                                        ));
                                        assert(segs_view(s, segs_old) + (seq![
                                            s.subrange(a2 as int, b2 as int)] + split_args(
                                            s,
                                            j as int + 1,
                                            e as int,
                                        )) =~= segs_view(s, segs@) + split_args(
                                            s,
                                            j as int + 1,
                                            e as int,
                                        ));
                                    }
                                    cur = j + 1;
                                } else {
                                    proof {
                                        assert(split_args(s, cur as int, e as int) == seq![
                                            trim_range(s, cur as int, e as int)]);
                                        assert(segs_view(s, segs_old) + seq![
                                            s.subrange(a2 as int, b2 as int)] =~= segs_view(
                                            s,
                                            segs@,
                                        ));
                                    }
                                    done = true;
                                }
                            }
                            // the argument count must equal the parameter count
                            proof {
                                assert(argts.len() == segs@.len());
                                assert(fv.parameters.len() == f.parameters@.len());
                                assert forall|m: int| 0 <= m < segs@.len() implies argts[m]
                                    == s.subrange(
                                    (#[trigger] segs@[m]).0 as int,
                                    segs@[m].1 as int,
                                ) by {
                                    assert(argts[m] == seg_view(s, segs@[m]));
                                }
                            }
                            if segs.len() != f.parameters.len() {
                                proof {
                                    assert(spec_pass(s, i0, fs) == Err::<Seq<char>, ExpandError>(
                                        ExpandError::ArgumentCountMismatch,
                                    ));
                                }
                                return Err(ExpandError::ArgumentCountMismatch);
                            }
                            // substitute each parameter by its argument text
                            let mut body = str_to_chars(f.expression.as_str());
                            let mut k: usize = 0;
                            while k < f.parameters.len()
                                invariant
                                    k <= f.parameters@.len() == segs@.len(),
                                    s == chars@,
                                    fv == func_view(*f),
                                    fv.parameters.len() == f.parameters@.len(),
                                    argts.len() == segs@.len(),
                                    forall|m: int|
                                        0 <= m < segs@.len() ==> (#[trigger] segs@[m]).0
                                            <= segs@[m].1 <= chars@.len(),
                                    forall|m: int|
                                        0 <= m < segs@.len() ==> argts[m] == s.subrange(
                                            (#[trigger] segs@[m]).0 as int,
                                            segs@[m].1 as int,
                                        ),
                                    spec_subst_all(fv.expression, fv.parameters, argts, 0)
                                        == spec_subst_all(body@, fv.parameters, argts, k as int),
                                decreases f.parameters@.len() - k,
                            {
                                let pchars = str_to_chars(f.parameters[k].as_str());
                                proof {
                                    assert(fv.parameters[k as int] == f.parameters@[k as int]@);
                                }
                                let (a2, b2) = (segs[k].0, segs[k].1);
                                let nb = subst(&body, &pchars, chars, a2, b2);
                                proof {
                                    assert(spec_subst_all(body@, fv.parameters, argts, k as int)
                                        == spec_subst_all(
                                        spec_subst(body@, fv.parameters[k as int], argts[k as int]),
                                        fv.parameters,
                                        argts,
                                        k as int + 1,
                                    ));
                                }
                                body = nb;
                                k = k + 1;
                            }
                            let ghost bodyv = spec_subst_all(fv.expression, fv.parameters, argts, 0);
                            proof {
                                assert(spec_subst_all(body@, fv.parameters, argts, k as int)
                                    == body@);
                            }
                            out.push('(');
                            out.append(&mut body);
                            out.push(')');
                            proof {
                                assert(out@ =~= out_old + (seq!['('] + bodyv + seq![')']));
                                match spec_pass(s, e as int + 1, fs) {
                                    Ok(rest) => {
                                        assert(out_old + (seq!['('] + bodyv + seq![')'] + rest)
                                            =~= out@ + rest);
                                    },
                                    Err(_) => {},
                                }
                            }
                            i = e + 1;
                        },
                        None => {
                            push_range(&mut out, chars, i, e + 1);
                            proof {
                                match spec_pass(s, e as int + 1, fs) {
                                    Ok(rest) => {
                                        assert(out_old + (s.subrange(i0, e as int + 1) + rest)
                                            =~= out@ + rest);
                                    },
                                    Err(_) => {},
                                }
                            }
                            i = e + 1;
                        },
                    }
                }
            }
        }
        if plain {
            out.push(c);
            proof {
                match spec_pass(s, i0 + 1, fs) {
                    Ok(rest) => {
                        assert(out_old + (seq![s[i0]] + rest) =~= out@ + rest);
                    },
                    Err(_) => {},
                }
            }
            i = i + 1;
        }
    }
    proof {
        assert(spec_pass(s, n as int, fs) == Ok::<Seq<char>, ExpandError>(Seq::empty()));
        assert(out@ + Seq::<char>::empty() =~= out@);
    }
    Ok(out)
}

/// Expands calls to registered functions in `expr`, textually and to a
/// fixpoint (with the pass cap of [`EXPANSION_ROUNDS`]): exactly
/// [`spec_expand`]. Fails exactly when a pass meets a call to a registered
/// function with the wrong number of arguments.
pub fn expand_custom_functions(expr: &str, funcs: &FunctionTable) -> (r: Result<
    String,
    ExpandError,
>)
    ensures
        match r {
            Ok(out) => spec_expand(expr@, funcs@) == Ok::<Seq<char>, ExpandError>(out@),
            Err(e) => spec_expand(expr@, funcs@) == Err::<Seq<char>, ExpandError>(e),
        },
{
    let mut cur: Vec<char> = str_to_chars(expr);
    let mut round: u64 = 0;
    while round < EXPANSION_ROUNDS
        invariant
            round <= EXPANSION_ROUNDS,
            spec_expand(expr@, funcs@) == spec_expand_iter(
                cur@,
                funcs@,
                (EXPANSION_ROUNDS - round) as nat,
            ),
        decreases EXPANSION_ROUNDS - round,
    {
        match expand_pass(&cur, funcs) {
            Err(e) => {
                return Err(e);
            },
            Ok(next) => {
                if chars_eq(&next, &cur) {
                    let n = cur.len();
                    let fixed = chars_to_string(&cur, 0, n);
                    proof {
                        assert(fixed@ =~= cur@);
                    }
                    return Ok(fixed);
                }
                cur = next;
            },
        }
        round = round + 1;
    }
    let n = cur.len();
    let r = chars_to_string(&cur, 0, n);
    proof {
        assert(r@ =~= cur@);
    }
    Ok(r)
}

proof fn lemma_parse_def_dup(
    s: Seq<char>,
    a: int,
    w: int,
    b: int,
    rp: int,
    c: int,
    paramsv: Seq<Seq<char>>,
)
    requires
        a == space_run_end(s, 0, s.len() as int),
        0 <= a < s.len(),
        spec_is_ident_start(s[a]),
        w == word_run_end(s, a, s.len() as int),
        b == space_run_end(s, w, s.len() as int),
        b < s.len(),
        s[b] == '(',
        rp == close_idx(s, b + 1, s.len() as int),
        rp < s.len(),
        c == space_run_end(s, rp + 1, s.len() as int),
        c < s.len(),
        s[c] == '=',
        trim_range(s, c + 1, s.len() as int).len() > 0,
        paramsv == if trim_range(s, b + 1, rp).len() == 0 {
            Seq::<Seq<char>>::empty()
        } else {
            split_args(s, b + 1, rp)
        },
        has_duplicate(paramsv),
    ensures
        spec_parse_definition(s) == Err::<(Seq<char>, Seq<Seq<char>>, Seq<char>), DefineError>(
            DefineError::DuplicateParameter,
        ),
{
}

/// Parses a function definition of the shape `name(p1, p2, ...) = body`:
/// exactly [`spec_parse_definition`].
#[verifier::loop_isolation(false)]
#[verifier::rlimit(100)]
pub fn parse_definition(definition: &str) -> (r: Result<
    (String, Vec<String>, String),
    DefineError,
>)
    ensures
        match r {
            Ok(p) => spec_parse_definition(definition@) == Ok::<
                (Seq<char>, Seq<Seq<char>>, Seq<char>),
                DefineError,
            >((p.0@, p.1.deep_view(), p.2@)),
            Err(e) => spec_parse_definition(definition@) == Err::<
                (Seq<char>, Seq<Seq<char>>, Seq<char>),
                DefineError,
            >(e),
        },
{
    let chars = str_to_chars(definition);
    let ghost s = definition@;
    let n = chars.len();
    // leading whitespace, then the name
    let mut a: usize = 0;
    while a < n && is_space(chars[a])
        invariant
            a <= n,
            space_run_end(s, 0, n as int) == space_run_end(s, a as int, n as int),
        decreases n - a,
    {
        a = a + 1;
    }
    proof {
        assert(space_run_end(s, a as int, n as int) == a);
    }
    if a >= n || !is_ident_start(chars[a]) {
        return Err(DefineError::Malformed);
    }
    let mut w = a + 1;
    proof {
        assert(word_run_end(s, a as int, n as int) == word_run_end(s, a as int + 1, n as int));
    }
    while w < n && is_word(chars[w])
        invariant
            a < w <= n,
            word_run_end(s, a as int, n as int) == word_run_end(s, w as int, n as int),
        decreases n - w,
    {
        w = w + 1;
    }
    proof {
        assert(word_run_end(s, w as int, n as int) == w);
    }
    // optional whitespace, then the parameter list
    let mut b = w;
    while b < n && is_space(chars[b])
        invariant
            w <= b <= n,
            space_run_end(s, w as int, n as int) == space_run_end(s, b as int, n as int),
        decreases n - b,
    {
        b = b + 1;
    }
    proof {
        assert(space_run_end(s, b as int, n as int) == b);
    }
    if b >= n || chars[b] != '(' {
        return Err(DefineError::Malformed);
    }
    let mut rp = b + 1;
    while rp < n && chars[rp] != ')'
        invariant
            b < rp <= n,
            close_idx(s, b as int + 1, n as int) == close_idx(s, rp as int, n as int),
        decreases n - rp,
    {
        rp = rp + 1;
    }
    proof {
        assert(close_idx(s, rp as int, n as int) == if rp < n {
            rp as int
        } else {
            n as int
        });
    }
    if rp >= n {
        return Err(DefineError::Malformed);
    }
    // the equals sign
    let mut c = rp + 1;
    while c < n && is_space(chars[c])
        invariant
            rp < c <= n,
            space_run_end(s, rp as int + 1, n as int) == space_run_end(s, c as int, n as int),
        decreases n - c,
    {
        c = c + 1;
    }
    proof {
        assert(space_run_end(s, c as int, n as int) == c);
    }
    if c >= n || chars[c] != '=' {
        return Err(DefineError::Malformed);
    }
    // the body, trimmed
    let mut d = c + 1;
    while d < n && is_space(chars[d])
        invariant
            c < d <= n,
            space_run_end(s, c as int + 1, n as int) == space_run_end(s, d as int, n as int),
        decreases n - d,
    {
        d = d + 1;
    }
    proof {
        assert(space_run_end(s, d as int, n as int) == d);
    }
    let mut e2 = n;
    while e2 > d && is_space(chars[e2 - 1])
        invariant
            d <= e2 <= n,
            trim_end_at(s, d as int, n as int) == trim_end_at(s, d as int, e2 as int),
        decreases e2 - d,
    {
        e2 = e2 - 1;
    }
    proof {
        assert(trim_end_at(s, d as int, e2 as int) == e2);
        assert(trim_range(s, c as int + 1, n as int) == s.subrange(d as int, e2 as int));
    }
    if e2 == d {
        return Err(DefineError::Malformed);
    }
    // the trimmed extent of the whole parameter list, to see a blank list
    let mut a2 = b + 1;
    while a2 < rp && is_space(chars[a2])
        invariant
            b < a2 <= rp,
            space_run_end(s, b as int + 1, rp as int) == space_run_end(s, a2 as int, rp as int),
        decreases rp - a2,
    {
        a2 = a2 + 1;
    }
    proof {
        assert(space_run_end(s, a2 as int, rp as int) == a2);
    }
    let mut b2 = rp;
    while b2 > a2 && is_space(chars[b2 - 1])
        invariant
            a2 <= b2 <= rp,
            trim_end_at(s, a2 as int, rp as int) == trim_end_at(s, a2 as int, b2 as int),
        decreases b2 - a2,
    {
        b2 = b2 - 1;
    }
    proof {
        assert(trim_end_at(s, a2 as int, b2 as int) == b2);
        assert(trim_range(s, b as int + 1, rp as int) == s.subrange(a2 as int, b2 as int));
    }
    let ghost paramsv: Seq<Seq<char>> = if b2 == a2 {
        Seq::<Seq<char>>::empty()
    } else {
        split_args(s, b as int + 1, rp as int)
    };
    let mut params: Vec<String> = Vec::new();
    if b2 > a2 {
        proof {
            assert(params.deep_view() =~= Seq::<Seq<char>>::empty());
            assert(params.deep_view() + split_args(s, b as int + 1, rp as int) =~= split_args(
                s,
                b as int + 1,
                rp as int,
            ));
        }
        let mut cur = b + 1;
        let mut done = false;
        while !done
            invariant
                b < cur <= rp,
                !done ==> paramsv == params.deep_view() + split_args(s, cur as int, rp as int),
                done ==> paramsv == params.deep_view(),
            decreases rp - cur + (if done {
                0int
            } else {
                1int
            }),
        {
            let mut j = cur;
            while j < rp && chars[j] != ','
                invariant
                    cur <= j <= rp,
                    comma_idx(s, cur as int, rp as int) == comma_idx(s, j as int, rp as int),
                decreases rp - j,
            {
                j = j + 1;
            }
            proof {
                assert(comma_idx(s, j as int, rp as int) == if j < rp {
                    j as int
                } else {
                    rp as int
                });
            }
            let mut sa = cur;
            while sa < j && is_space(chars[sa])
                invariant
                    cur <= sa <= j,
                    space_run_end(s, cur as int, j as int) == space_run_end(
                        s,
                        sa as int,
                        j as int,
                    ),
                decreases j - sa,
            {
                sa = sa + 1;
            }
            proof {
                assert(space_run_end(s, sa as int, j as int) == sa);
            }
            let mut sb = j;
            while sb > sa && is_space(chars[sb - 1])
                invariant
                    sa <= sb <= j,
                    trim_end_at(s, sa as int, j as int) == trim_end_at(s, sa as int, sb as int),
                decreases sb - sa,
            {
                sb = sb - 1;
            }
            proof {
                assert(trim_end_at(s, sa as int, sb as int) == sb);
                assert(trim_range(s, cur as int, j as int) == s.subrange(sa as int, sb as int));
            }
            let ghost params_old = params.deep_view();
            let seg = chars_to_string(&chars, sa, sb);
            params.push(seg);
            proof {
                assert(params.deep_view() =~= params_old.push(s.subrange(sa as int, sb as int)));
            }
            if j < rp {
                proof {
                    assert(split_args(s, cur as int, rp as int) == seq![
                        trim_range(s, cur as int, j as int)] + split_args(
                        s,
                        j as int + 1,
                        rp as int,
                    ));
                    assert(params_old + (seq![s.subrange(sa as int, sb as int)] + split_args(
                        s,
                        j as int + 1,
                        rp as int,
                    )) =~= params.deep_view() + split_args(s, j as int + 1, rp as int));
                }
                cur = j + 1;
            } else {
                proof {
                    assert(split_args(s, cur as int, rp as int) == seq![
                        trim_range(s, cur as int, rp as int)]);
                    assert(params_old + seq![s.subrange(sa as int, sb as int)]
                        =~= params.deep_view());
                }
                done = true;
            }
        }
    }
    // parameter names must be pairwise distinct
    let np = params.len();
    let mut i: usize = 1;
    while i < np
        invariant
            1 <= i <= np || np == 0,
            np == params@.len(),
            paramsv == params.deep_view(),
            forall|p: int, q: int| 0 <= p < q < i ==> paramsv[p] != paramsv[q],
        decreases np - i,
    {
        let mut j: usize = 0;
        while j < i
            invariant
                j <= i < np == params@.len(),
                paramsv == params.deep_view(),
                forall|p: int| 0 <= p < j ==> paramsv[p] != paramsv[i as int],
            decreases i - j,
        {
            if str_eq(params[j].as_str(), params[i].as_str()) {
                proof {
                    assert(paramsv[j as int] == params@[j as int].deep_view());
                    assert(paramsv[i as int] == params@[i as int].deep_view());
                    assert(paramsv[j as int] == paramsv[i as int]);
                    assert(has_duplicate(paramsv));
                    lemma_parse_def_dup(
                        s,
                        a as int,
                        w as int,
                        b as int,
                        rp as int,
                        c as int,
                        paramsv,
                    );
                }
                return Err(DefineError::DuplicateParameter);
            }
            j = j + 1;
        }
        i = i + 1;
    }
    proof {
        assert(!has_duplicate(paramsv)) by {
            if has_duplicate(paramsv) {
                let (p, q) = choose|p: int, q: int|
                    0 <= p < q < paramsv.len() && paramsv[p] == paramsv[q];
                assert(false);
            }
        }
    }
    let name = chars_to_string(&chars, a, w);
    let body = chars_to_string(&chars, d, e2);
    Ok((name, params, body))
}

} // verus!
