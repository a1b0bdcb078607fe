//! The rule compiler: configuration lines become directives — a device
//! to read from, a match rule appended to the ordered rule table, a
//! skipped blank line, or a fatal error naming the offending line.

use vstd::prelude::*;

use crate::numparse::{i32_from_dec, parse_i32, parse_u16, u16_from_dec};
use crate::text::{line_tokens, split_tokens};

verus! {

/// One compiled `if ... then ...` rule: an optional condition on each
/// event field (absence matches anything) and the command to run when
/// all present conditions hold.
#[derive(Clone, Debug, PartialEq, Eq)]
pub struct MatchRule {
    pub wants_type: Option<u16>,
    pub wants_code: Option<u16>,
    pub wants_value: Option<i32>,
    pub command: Vec<u8>,
}

/// The mathematical value of a [`MatchRule`].
#[verifier::ext_equal]
pub struct RuleModel {
    pub wants_type: Option<u16>,
    pub wants_code: Option<u16>,
    pub wants_value: Option<i32>,
    pub command: Seq<u8>,
}

impl View for MatchRule {
    type V = RuleModel;

    open spec fn view(&self) -> RuleModel {
        RuleModel {
            wants_type: self.wants_type,
            wants_code: self.wants_code,
            wants_value: self.wants_value,
            command: self.command@,
        }
    }
}

impl DeepView for MatchRule {
    type V = RuleModel;

    open spec fn deep_view(&self) -> RuleModel {
        self.view()
    }
}

/// A device path declared by a `dev` directive, with the 1-based line
/// it stood on (for error reports when the device cannot be opened).
#[derive(Clone, Debug, PartialEq, Eq)]
pub struct Device {
    pub path: Vec<u8>,
    pub line: usize,
}

/// The mathematical value of a [`Device`].
#[verifier::ext_equal]
pub struct DeviceModel {
    pub path: Seq<u8>,
    pub line: int,
}

impl View for Device {
    type V = DeviceModel;

    open spec fn view(&self) -> DeviceModel {
        DeviceModel { path: self.path@, line: self.line as int }
    }
}

impl DeepView for Device {
    type V = DeviceModel;

    open spec fn deep_view(&self) -> DeviceModel {
        self.view()
    }
}

/// Why a configuration line was rejected.
#[derive(Clone, Copy, Debug, PartialEq, Eq, Structural)]
pub enum ErrKind {
    /// A `dev` directive with other than exactly one parameter.
    DevParamCount,
    /// A second `type=` condition on one `if` line.
    DuplicateType,
    /// A second `code=` condition on one `if` line.
    DuplicateCode,
    /// A second `value=` condition on one `if` line.
    DuplicateValue,
    /// A `type=` condition whose value is not a 16-bit unsigned decimal.
    InvalidType,
    /// A `code=` condition whose value is not a 16-bit unsigned decimal.
    InvalidCode,
    /// A `value=` condition whose value is not a 32-bit signed decimal.
    InvalidValue,
    /// A token after `if` that is no condition and not `then`.
    UnknownCondition,
    /// An `if` line with no `then` token.
    MissingThen,
    /// A `then` with no command after it.
    MissingCommand,
    /// More than one raw token after `then`: the command was not
    /// supplied through the colon form.
    UnsplitCommand,
    /// A first token that names no directive.
    UnknownDirective,
}

/// A fatal configuration error: the kind and the 1-based number of the
/// line it was found on.
#[derive(Clone, Copy, Debug, PartialEq, Eq, Structural)]
pub struct ConfigError {
    pub line: usize,
    pub kind: ErrKind,
}

/// What one configuration line means.
#[derive(Debug)]
pub enum ParsedLine {
    /// Blank after comment stripping: skipped.
    Empty,
    /// A `dev` directive with its device path.
    Dev(Vec<u8>),
    /// An `if ... then ...` directive's compiled rule.
    Rule(MatchRule),
    /// A malformed line.
    Reject(ErrKind),
}

/// The mathematical value of a [`ParsedLine`].
#[verifier::ext_equal]
pub enum LineSpec {
    Empty,
    Dev(Seq<u8>),
    Rule(RuleModel),
    Reject(ErrKind),
}

impl View for ParsedLine {
    type V = LineSpec;

    open spec fn view(&self) -> LineSpec {
        match self {
            ParsedLine::Empty => LineSpec::Empty,
            ParsedLine::Dev(p) => LineSpec::Dev(p@),
            ParsedLine::Rule(r) => LineSpec::Rule(r@),
            ParsedLine::Reject(k) => LineSpec::Reject(*k),
        }
    }
}

/// The bytes of the keyword `dev`.
pub open spec fn dev_tok() -> Seq<u8> {
    seq![100u8, 101u8, 118u8]
}

/// The bytes of the keyword `if`.
pub open spec fn if_tok() -> Seq<u8> {
    seq![105u8, 102u8]
}

/// The bytes of the keyword `then`.
pub open spec fn then_tok() -> Seq<u8> {
    seq![116u8, 104u8, 101u8, 110u8]
}

/// The bytes of the condition prefix `type=`.
pub open spec fn type_pre() -> Seq<u8> {
    seq![116u8, 121u8, 112u8, 101u8, 61u8]
}

/// The bytes of the condition prefix `code=`.
pub open spec fn code_pre() -> Seq<u8> {
    seq![99u8, 111u8, 100u8, 101u8, 61u8]
}

/// The bytes of the condition prefix `value=`.
pub open spec fn value_pre() -> Seq<u8> {
    seq![118u8, 97u8, 108u8, 117u8, 101u8, 61u8]
}

/// Whether `s` begins with the prefix `p`.
pub open spec fn starts_with(s: Seq<u8>, p: Seq<u8>) -> bool {
    s.len() >= p.len() && s.take(p.len() as int) == p
}

/// Whether the token is the keyword `dev`.
fn tok_is_dev(t: &Vec<u8>) -> (r: bool)
    ensures
        r == (t@ == dev_tok()),
{
    let r = t.len() == 3 && t[0] == 100 && t[1] == 101 && t[2] == 118;
    proof {
        if r {
            assert(t@ =~= dev_tok());
        } else if t@ == dev_tok() {
            assert(t@.len() == 3 && t@[0] == 100 && t@[1] == 101 && t@[2] == 118);
        }
    }
    r
}

/// Whether the token is the keyword `if`.
fn tok_is_if(t: &Vec<u8>) -> (r: bool)
    ensures
        r == (t@ == if_tok()),
{
    let r = t.len() == 2 && t[0] == 105 && t[1] == 102;
    proof {
        if r {
            assert(t@ =~= if_tok());
        } else if t@ == if_tok() {
            assert(t@.len() == 2 && t@[0] == 105 && t@[1] == 102);
        }
    }
    r
}

/// Whether the token is the keyword `then`.
fn tok_is_then(t: &Vec<u8>) -> (r: bool)
    ensures
        r == (t@ == then_tok()),
{
    let r = t.len() == 4 && t[0] == 116 && t[1] == 104 && t[2] == 101 && t[3] == 110;
    proof {
        if r {
            assert(t@ =~= then_tok());
        } else if t@ == then_tok() {
            assert(t@.len() == 4 && t@[0] == 116 && t@[1] == 104 && t@[2] == 101 && t@[3] == 110);
        }
    }
    r
}

/// Whether the token begins with `type=`.
fn has_type_prefix(t: &Vec<u8>) -> (r: bool)
    ensures
        r == starts_with(t@, type_pre()),
{
    let r = t.len() >= 5 && t[0] == 116 && t[1] == 121 && t[2] == 112 && t[3] == 101 && t[4] == 61;
    proof {
        if r {
            assert(t@.take(5) =~= type_pre());
        } else if starts_with(t@, type_pre()) {
            assert(t@[0] == t@.take(5)[0] && t@[1] == t@.take(5)[1] && t@[2] == t@.take(5)[2]
                && t@[3] == t@.take(5)[3] && t@[4] == t@.take(5)[4]);
        }
    }
    r
}

/// Whether the token begins with `code=`.
fn has_code_prefix(t: &Vec<u8>) -> (r: bool)
    ensures
        r == starts_with(t@, code_pre()),
{
    let r = t.len() >= 5 && t[0] == 99 && t[1] == 111 && t[2] == 100 && t[3] == 101 && t[4] == 61;
    proof {
        if r {
            assert(t@.take(5) =~= code_pre());
        } else if starts_with(t@, code_pre()) {
            assert(t@[0] == t@.take(5)[0] && t@[1] == t@.take(5)[1] && t@[2] == t@.take(5)[2]
                && t@[3] == t@.take(5)[3] && t@[4] == t@.take(5)[4]);
        }
    }
    r
}

/// Whether the token begins with `value=`.
fn has_value_prefix(t: &Vec<u8>) -> (r: bool)
    ensures
        r == starts_with(t@, value_pre()),
{
    let r = t.len() >= 6 && t[0] == 118 && t[1] == 97 && t[2] == 108 && t[3] == 117 && t[4] == 101
        && t[5] == 61;
    proof {
        if r {
            assert(t@.take(6) =~= value_pre());
        } else if starts_with(t@, value_pre()) {
            assert(t@[0] == t@.take(6)[0] && t@[1] == t@.take(6)[1] && t@[2] == t@.take(6)[2]
                && t@[3] == t@.take(6)[3] && t@[4] == t@.take(6)[4] && t@[5] == t@.take(6)[5]);
        }
    }
    r
}

/// A copy of a byte vector.
pub fn clone_bytes(v: &Vec<u8>) -> (r: Vec<u8>)
    ensures
        r@ == v@,
{
    let mut r: Vec<u8> = Vec::new();
    let mut i: usize = 0;
    while i < v.len()
        invariant
            i <= v@.len(),
            r@ == v@.subrange(0, i as int),
        decreases v@.len() - i,
    {
        r.push(v[i]);
        i = i + 1;
    }
    proof {
        assert(r@ =~= v@);
    }
    r
}

/// What scanning the condition tokens of an `if` line from position `i`
/// yields, given the conditions gathered so far: conditions accumulate
/// until the `then` token, each key at most once, each value a decimal
/// literal of the field's type, and exactly one token — the verbatim
/// command — must follow `then`.
pub open spec fn parse_if_spec(
    toks: Seq<Seq<u8>>,
    i: int,
    wt: Option<u16>,
    wc: Option<u16>,
    wv: Option<i32>,
) -> LineSpec
    decreases toks.len() - i,
{
    if i < 0 || i >= toks.len() {
        LineSpec::Reject(ErrKind::MissingThen)
    } else if toks[i] == then_tok() {
        if toks.len() == i + 1 {
            LineSpec::Reject(ErrKind::MissingCommand)
        } else if toks.len() >= i + 3 {
            LineSpec::Reject(ErrKind::UnsplitCommand)
        } else {
            LineSpec::Rule(
                RuleModel {
                    wants_type: wt,
                    wants_code: wc,
                    wants_value: wv,
                    command: toks[i + 1],
                },
            )
        }
    } else if starts_with(toks[i], type_pre()) {
        if wt is Some {
            LineSpec::Reject(ErrKind::DuplicateType)
        } else {
            match u16_from_dec(toks[i].skip(5)) {
                None => LineSpec::Reject(ErrKind::InvalidType),
                Some(x) => parse_if_spec(toks, i + 1, Some(x), wc, wv),
            }
        }
    } else if starts_with(toks[i], code_pre()) {
        if wc is Some {
            LineSpec::Reject(ErrKind::DuplicateCode)
        } else {
            match u16_from_dec(toks[i].skip(5)) {
                None => LineSpec::Reject(ErrKind::InvalidCode),
                Some(x) => parse_if_spec(toks, i + 1, wt, Some(x), wv),
            }
        }
    } else if starts_with(toks[i], value_pre()) {
        if wv is Some {
            LineSpec::Reject(ErrKind::DuplicateValue)
        } else {
            match i32_from_dec(toks[i].skip(6)) {
                None => LineSpec::Reject(ErrKind::InvalidValue),
                Some(x) => parse_if_spec(toks, i + 1, wt, wc, Some(x)),
            }
        }
    } else {
        LineSpec::Reject(ErrKind::UnknownCondition)
    }
}

/// What a tokenized configuration line means: nothing when there is no
/// token or the first is empty, a device binding for `dev <path>`, a
/// rule for `if ... then ...`, an error otherwise.
pub open spec fn parse_tokens_spec(toks: Seq<Seq<u8>>) -> LineSpec {
    if toks.len() == 0 || toks[0].len() == 0 {
        LineSpec::Empty
    } else if toks[0] == dev_tok() {
        if toks.len() == 2 {
            LineSpec::Dev(toks[1])
        } else {
            LineSpec::Reject(ErrKind::DevParamCount)
        }
    } else if toks[0] == if_tok() {
        parse_if_spec(toks, 1, None, None, None)
    } else {
        LineSpec::Reject(ErrKind::UnknownDirective)
    }
}

/// What one raw configuration line means, tokenization included.
pub open spec fn parse_line_spec(line: Seq<u8>) -> LineSpec {
    parse_tokens_spec(line_tokens(line))
}

/// The deep view of a vector of byte vectors indexes to the elements'
/// views.
proof fn lemma_toks_index(v: &Vec<Vec<u8>>, i: int)
    requires
        0 <= i < v@.len(),
    ensures
        v.deep_view().len() == v@.len(),
        v.deep_view()[i] == v@[i]@,
{
    assert(v@[i].deep_view() =~= v@[i]@);
}

/// Parses one tokenized configuration line.
pub fn parse_tokens(toks: &Vec<Vec<u8>>) -> (r: ParsedLine)
    ensures
        r@ == parse_tokens_spec(toks.deep_view()),
{
    let ghost tv = toks.deep_view();
    if toks.len() == 0 {
        return ParsedLine::Empty;
    }
    proof {
        lemma_toks_index(toks, 0);
    }
    if toks[0].len() == 0 {
        return ParsedLine::Empty;
    }
    if tok_is_dev(&toks[0]) {
        if toks.len() == 2 {
            proof {
                lemma_toks_index(toks, 1);
            }
            ParsedLine::Dev(clone_bytes(&toks[1]))
        } else {
            ParsedLine::Reject(ErrKind::DevParamCount)
        }
    } else if tok_is_if(&toks[0]) {
        let mut i: usize = 1;
        let mut wt: Option<u16> = None;
        let mut wc: Option<u16> = None;
        let mut wv: Option<i32> = None;
        loop
            invariant
                1 <= i <= toks@.len(),
                tv == toks.deep_view(),
                tv.len() == toks@.len(),
                parse_tokens_spec(tv) == parse_if_spec(tv, 1, None, None, None),
                parse_if_spec(tv, 1, None, None, None) == parse_if_spec(tv, i as int, wt, wc, wv),
            decreases toks@.len() - i,
        {
            if i == toks.len() {
                return ParsedLine::Reject(ErrKind::MissingThen);
            }
            proof {
                lemma_toks_index(toks, i as int);
            }
            if tok_is_then(&toks[i]) {
                if i + 1 == toks.len() {
                    return ParsedLine::Reject(ErrKind::MissingCommand);
                }
                if i + 2 < toks.len() {
                    return ParsedLine::Reject(ErrKind::UnsplitCommand);
                }
                proof {
                    lemma_toks_index(toks, i as int + 1);
                }
                let command = clone_bytes(&toks[i + 1]);
                return ParsedLine::Rule(
                    MatchRule { wants_type: wt, wants_code: wc, wants_value: wv, command },
                );
            }
            if has_type_prefix(&toks[i]) {
                if wt.is_some() {
                    return ParsedLine::Reject(ErrKind::DuplicateType);
                }
                match parse_u16(&toks[i], 5) {
                    None => {
                        return ParsedLine::Reject(ErrKind::InvalidType);
                    },
                    Some(x) => {
                        wt = Some(x);
                    },
                }
            } else if has_code_prefix(&toks[i]) {
                if wc.is_some() {
                    return ParsedLine::Reject(ErrKind::DuplicateCode);
                }
                match parse_u16(&toks[i], 5) {
                    None => {
                        return ParsedLine::Reject(ErrKind::InvalidCode);
                    },
                    Some(x) => {
                        wc = Some(x);
                    },
                }
            } else if has_value_prefix(&toks[i]) {
                if wv.is_some() {
                    return ParsedLine::Reject(ErrKind::DuplicateValue);
                }
                match parse_i32(&toks[i], 6) {
                    None => {
                        return ParsedLine::Reject(ErrKind::InvalidValue);
                    },
                    Some(x) => {
                        wv = Some(x);
                    },
                }
            } else {
                return ParsedLine::Reject(ErrKind::UnknownCondition);
            }
            i = i + 1;
        }
    } else {
        ParsedLine::Reject(ErrKind::UnknownDirective)
    }
}

/// Parses one raw configuration line.
pub fn parse_line(line: &Vec<u8>) -> (r: ParsedLine)
    ensures
        r@ == parse_line_spec(line@),
{
    let toks = split_tokens(line);
    parse_tokens(&toks)
}

/// Everything one configuration source declares: its ordered rules and
/// the devices to read from.
#[derive(Debug, PartialEq, Eq)]
pub struct Config {
    pub rules: Vec<MatchRule>,
    pub devices: Vec<Device>,
}

/// The mathematical value of a [`Config`].
#[verifier::ext_equal]
pub struct ConfigModel {
    pub rules: Seq<RuleModel>,
    pub devices: Seq<DeviceModel>,
}

impl View for Config {
    type V = ConfigModel;

    open spec fn view(&self) -> ConfigModel {
        ConfigModel { rules: self.rules.deep_view(), devices: self.devices.deep_view() }
    }
}

/// What compiling the first `n` lines of a source yields: rules and
/// devices accumulate in line order, blank lines are skipped, and the
/// first malformed line aborts the whole load with its 1-based number.
pub open spec fn parse_upto(lines: Seq<Seq<u8>>, n: int) -> Result<ConfigModel, ConfigError>
    decreases n,
{
    if n <= 0 {
        Ok(ConfigModel { rules: Seq::empty(), devices: Seq::empty() })
    } else {
        match parse_upto(lines, n - 1) {
            Err(e) => Err(e),
            Ok(m) => match parse_line_spec(lines[n - 1]) {
                LineSpec::Empty => Ok(m),
                LineSpec::Dev(p) => Ok(
                    ConfigModel {
                        rules: m.rules,
                        devices: m.devices.push(DeviceModel { path: p, line: n }),
                    },
                ),
                LineSpec::Rule(r) => Ok(ConfigModel { rules: m.rules.push(r), devices: m.devices }),
                LineSpec::Reject(k) => Err(ConfigError { line: n as usize, kind: k }),
            },
        }
    }
}

/// What compiling a whole configuration source yields.
pub open spec fn parse_source_spec(lines: Seq<Seq<u8>>) -> Result<ConfigModel, ConfigError> {
    parse_upto(lines, lines.len() as int)
}

/// Once a line has failed, every longer prefix fails the same way: the
/// first error aborts the whole load.
pub proof fn lemma_parse_upto_err(lines: Seq<Seq<u8>>, n: int, m: int)
    requires
        parse_upto(lines, n) is Err,
        n <= m,
    ensures
        parse_upto(lines, m) == parse_upto(lines, n),
    decreases m - n,
{
    if m > n {
        lemma_parse_upto_err(lines, n, m - 1);
    }
}

/// While no line is malformed, compilation keeps succeeding.
pub proof fn lemma_parse_upto_ok(lines: Seq<Seq<u8>>, n: int)
    requires
        0 <= n <= lines.len(),
        forall|j: int| 0 <= j < n ==> !(parse_line_spec(#[trigger] lines[j]) is Reject),
    ensures
        parse_upto(lines, n) is Ok,
    decreases n,
{
    if n > 0 {
        lemma_parse_upto_ok(lines, n - 1);
    }
}

/// A malformed line is reported with its exact 1-based number: whenever
/// the earliest malformed line of a source is line `k + 1` (an `if`
/// without a `then`, a duplicate condition key, a command not supplied
/// through the colon form, or any other rejected line), compiling the
/// source fails with exactly that line number and that line's error.
pub proof fn lemma_error_names_offending_line(lines: Seq<Seq<u8>>, k: int)
    requires
        0 <= k < lines.len(),
        parse_line_spec(lines[k]) is Reject,
        forall|j: int| 0 <= j < k ==> !(parse_line_spec(#[trigger] lines[j]) is Reject),
    ensures
        parse_line_spec(lines[k]) matches LineSpec::Reject(kind) && parse_source_spec(lines) == Err::<
            ConfigModel,
            ConfigError,
        >(ConfigError { line: (k + 1) as usize, kind: kind }),
{
    lemma_parse_upto_ok(lines, k);
    lemma_parse_upto_err(lines, k + 1, lines.len() as int);
}

/// Pushing an element pushes its deep view.
proof fn lemma_deep_push_gen<T: DeepView>(pre: Seq<T>, post: Seq<T>, tv: T::V)
    requires
        post.len() == pre.len() + 1,
        forall|i: int| 0 <= i < pre.len() ==> post[i] == pre[i],
        post[pre.len() as int].deep_view() == tv,
    ensures
        Seq::new(post.len(), |i: int| post[i].deep_view()) =~= Seq::new(
            pre.len(),
            |i: int| pre[i].deep_view(),
        ).push(tv),
{
}

/// Concatenating vectors concatenates their deep views.
proof fn lemma_deep_concat<T: DeepView>(a: Seq<T>, b: Seq<T>)
    ensures
        Seq::new((a + b).len(), |i: int| (a + b)[i].deep_view()) =~= Seq::new(
            a.len(),
            |i: int| a[i].deep_view(),
        ) + Seq::new(b.len(), |i: int| b[i].deep_view()),
{
}

/// Compiles one configuration source, line by line: every `dev` path
/// and every rule in declaration order, or the first error with the
/// 1-based number of the line that caused it.
pub fn parse_source(lines: &Vec<Vec<u8>>) -> (r: Result<Config, ConfigError>)
    ensures
        match r {
            Ok(c) => parse_source_spec(lines.deep_view()) == Ok::<ConfigModel, ConfigError>(c@),
            Err(e) => parse_source_spec(lines.deep_view()) == Err::<ConfigModel, ConfigError>(e),
        },
{
    let ghost lv = lines.deep_view();
    let mut rules: Vec<MatchRule> = Vec::new();
    let mut devices: Vec<Device> = Vec::new();
    let mut i: usize = 0;
    proof {
        assert(rules.deep_view() =~= Seq::<RuleModel>::empty());
        assert(devices.deep_view() =~= Seq::<DeviceModel>::empty());
    }
    while i < lines.len()
        invariant
            i <= lines@.len(),
            lv == lines.deep_view(),
            lv.len() == lines@.len(),
            parse_upto(lv, i as int) == Ok::<ConfigModel, ConfigError>(
                ConfigModel { rules: rules.deep_view(), devices: devices.deep_view() },
            ),
        decreases lines@.len() - i,
    {
        proof {
            lemma_toks_index(lines, i as int);
        }
        let parsed = parse_line(&lines[i]);
        let ghost old_rules = rules@;
        let ghost old_devs = devices@;
        match parsed {
            ParsedLine::Empty => {},
            ParsedLine::Dev(p) => {
                let ghost pv = p@;
                devices.push(Device { path: p, line: i + 1 });
                proof {
                    lemma_deep_push_gen(
                        old_devs,
                        devices@,
                        DeviceModel { path: pv, line: i as int + 1 },
                    );
                }
            },
            ParsedLine::Rule(mr) => {
                let ghost mv = mr@;
                rules.push(mr);
                proof {
                    lemma_deep_push_gen(old_rules, rules@, mv);
                }
            },
            ParsedLine::Reject(k) => {
                proof {
                    assert(parse_upto(lv, i as int + 1) == Err::<ConfigModel, ConfigError>(
                        ConfigError { line: (i + 1) as usize, kind: k },
                    ));
                    lemma_parse_upto_err(lv, i as int + 1, lv.len() as int);
                }
                return Err(ConfigError { line: i + 1, kind: k });
            },
        }
        i = i + 1;
        proof {
            assert(parse_upto(lv, i as int) == Ok::<ConfigModel, ConfigError>(
                ConfigModel { rules: rules.deep_view(), devices: devices.deep_view() },
            ));
        }
    }
    Ok(Config { rules, devices })
}

/// Compiles one configuration source and appends its rules to a shared
/// rule table, as sources supplied one after another accumulate their
/// rules in order; on error the table is left untouched and no rule of
/// the failed source takes effect.
pub fn load_source(lines: &Vec<Vec<u8>>, rules: &mut Vec<MatchRule>) -> (r: Result<
    Vec<Device>,
    ConfigError,
>)
    ensures
        match r {
            Ok(devs) => parse_source_spec(lines.deep_view()) matches Ok(m)
                && final(rules).deep_view() == old(rules).deep_view() + m.rules
                && devs.deep_view() == m.devices,
            Err(e) => parse_source_spec(lines.deep_view()) == Err::<ConfigModel, ConfigError>(e)
                && *final(rules) == *old(rules),
        },
{
    match parse_source(lines) {
        Err(e) => Err(e),
        Ok(c) => {
            let Config { rules: mut fresh, devices } = c;
            let ghost old_rules = rules@;
            let ghost fresh_v = fresh@;
            rules.append(&mut fresh);
            proof {
                lemma_deep_concat(old_rules, fresh_v);
                assert(Seq::new(
                    (old_rules + fresh_v).len(),
                    |i: int| (old_rules + fresh_v)[i].deep_view(),
                ) =~= rules.deep_view());
            }
            Ok(devices)
        },
    }
}

/// Re-running the rule compiler on the same configuration text yields
/// an identical result: compilation is a function of the text alone, so
/// two fresh tables built from equal sources hold identical ordered
/// rule lists.
pub proof fn lemma_compile_deterministic(a: Seq<Seq<u8>>, b: Seq<Seq<u8>>)
    requires
        a == b,
    ensures
        parse_source_spec(a) == parse_source_spec(b),
{
}

} // verus!
