//! Parsing of one interactive command line into a `Configuration`.
//!
//! A command is a verb followed by option tokens: `<verb> [<option> ...]`,
//! the tokens separated by spaces. An option token is `--name` or `-n`,
//! optionally with `=VAL[,VAL...]`; an unknown verb, an unknown option and an
//! option with fewer values than it requires are the three parse errors, and
//! a malformed or out-of-range numeric value counts as a missing one.
//! Printing — the help text, the error messages — is the caller's business:
//! the `help` flag and the error variant say what to print.

use vstd::prelude::*;
use vstd::string::StringSliceAdditionalSpecFns;

use crate::config::{bytes_eq, Action, Configuration, FilterOption, ScanStartFlag, ScanType};
use crate::numeric::{all_dec_digits, dec_value, parse_decimal};

verus! {

broadcast use vstd::seq_lib::group_seq_properties;

/// How a command line can be rejected.
#[derive(Debug, PartialEq, Eq, Structural)]
pub enum ArgError {
    OptionDoesntExist,
    InsufficientParameters,
    InvalidCommand,
}

/// The split of `s` at every occurrence of `sep`: always one token more than
/// there are separators, empty tokens kept.
pub open spec fn spec_split(s: Seq<u8>, sep: u8) -> Seq<Seq<u8>>
    decreases s.len(),
{
    if s.len() == 0 {
        seq![Seq::<u8>::empty()]
    } else if s[0] == sep {
        seq![Seq::<u8>::empty()] + spec_split(s.skip(1), sep)
    } else {
        let rest = spec_split(s.skip(1), sep);
        seq![seq![s[0]] + rest[0]] + rest.skip(1)
    }
}

/// A split always yields at least one token.
pub proof fn lemma_spec_split_len(s: Seq<u8>, sep: u8)
    ensures
        spec_split(s, sep).len() >= 1,
    decreases s.len(),
{
    if s.len() > 0 {
        lemma_spec_split_len(s.skip(1), sep);
    }
}

/// The bytes of `search`.
pub open spec fn lit_search() -> Seq<u8> {
    seq![115u8, 101, 97, 114, 99, 104]
}

/// The bytes of `write`.
pub open spec fn lit_write_verb() -> Seq<u8> {
    seq![119u8, 114, 105, 116, 101]
}

/// The bytes of `display`.
pub open spec fn lit_display() -> Seq<u8> {
    seq![100u8, 105, 115, 112, 108, 97, 121]
}

/// The bytes of `exit`.
pub open spec fn lit_exit_verb() -> Seq<u8> {
    seq![101u8, 120, 105, 116]
}

/// The bytes of `-h`.
pub open spec fn lit_h() -> Seq<u8> {
    seq![45u8, 104]
}

/// The bytes of `--help`.
pub open spec fn lit_help() -> Seq<u8> {
    seq![45u8, 45, 104, 101, 108, 112]
}

/// The bytes of `-D`.
pub open spec fn lit_d_short() -> Seq<u8> {
    seq![45u8, 68]
}

/// The bytes of `--dataType`.
pub open spec fn lit_data_type() -> Seq<u8> {
    seq![45u8, 45, 100, 97, 116, 97, 84, 121, 112, 101]
}

/// The bytes of `-j`.
pub open spec fn lit_j_short() -> Seq<u8> {
    seq![45u8, 106]
}

/// The bytes of `--jobs`.
pub open spec fn lit_jobs() -> Seq<u8> {
    seq![45u8, 45, 106, 111, 98, 115]
}

/// The bytes of `-F`.
pub open spec fn lit_f_short() -> Seq<u8> {
    seq![45u8, 70]
}

/// The bytes of `--filterSearch`.
pub open spec fn lit_filter_search() -> Seq<u8> {
    seq![45u8, 45, 102, 105, 108, 116, 101, 114, 83, 101, 97, 114, 99, 104]
}

/// The bytes of `-v`.
pub open spec fn lit_v_short() -> Seq<u8> {
    seq![45u8, 118]
}

/// The bytes of `--value`.
pub open spec fn lit_value() -> Seq<u8> {
    seq![45u8, 45, 118, 97, 108, 117, 101]
}

/// The bytes of `-s`.
pub open spec fn lit_s_short() -> Seq<u8> {
    seq![45u8, 115]
}

/// The bytes of `--sleep`.
pub open spec fn lit_sleep() -> Seq<u8> {
    seq![45u8, 45, 115, 108, 101, 101, 112]
}

/// The bytes of `-S`.
pub open spec fn lit_cap_s() -> Seq<u8> {
    seq![45u8, 83]
}

/// The bytes of `--freeze`.
pub open spec fn lit_freeze() -> Seq<u8> {
    seq![45u8, 45, 102, 114, 101, 101, 122, 101]
}

/// The bytes of `-a`.
pub open spec fn lit_a_short() -> Seq<u8> {
    seq![45u8, 97]
}

/// The bytes of `--address`.
pub open spec fn lit_address() -> Seq<u8> {
    seq![45u8, 45, 97, 100, 100, 114, 101, 115, 115]
}

/// The bytes of `u8`.
pub open spec fn lit_u8() -> Seq<u8> {
    seq![117u8, 56]
}

/// The bytes of `u16`.
pub open spec fn lit_u16() -> Seq<u8> {
    seq![117u8, 49, 54]
}

/// The bytes of `u32`.
pub open spec fn lit_u32() -> Seq<u8> {
    seq![117u8, 51, 50]
}

/// The bytes of `u64`.
pub open spec fn lit_u64() -> Seq<u8> {
    seq![117u8, 54, 52]
}

/// The bytes of `i32`.
pub open spec fn lit_i32() -> Seq<u8> {
    seq![105u8, 51, 50]
}

/// The bytes of `i64`.
pub open spec fn lit_i64() -> Seq<u8> {
    seq![105u8, 54, 52]
}

/// The bytes of `f32`.
pub open spec fn lit_f32() -> Seq<u8> {
    seq![102u8, 51, 50]
}

/// The bytes of `f64`.
pub open spec fn lit_f64() -> Seq<u8> {
    seq![102u8, 54, 52]
}

/// One recognised option.
#[derive(Clone, Copy, Debug, PartialEq, Eq, Structural)]
pub enum OptKind {
    Help,
    DataType,
    Jobs,
    FilterSearch,
    Value,
    Sleep,
    Freeze,
    Address,
}

/// How many `=`-values the option requires.
pub open spec fn arity(o: OptKind) -> nat {
    match o {
        OptKind::Help => 0,
        OptKind::DataType => 1,
        OptKind::Jobs => 1,
        OptKind::FilterSearch => 0,
        OptKind::Value => 1,
        OptKind::Sleep => 1,
        OptKind::Freeze => 0,
        OptKind::Address => 1,
    }
}

/// The option a token's name denotes, under its long or its short form.
pub open spec fn opt_of(name: Seq<u8>) -> Option<OptKind> {
    if name == lit_h() || name == lit_help() {
        Some(OptKind::Help)
    } else if name == lit_d_short() || name == lit_data_type() {
        Some(OptKind::DataType)
    } else if name == lit_j_short() || name == lit_jobs() {
        Some(OptKind::Jobs)
    } else if name == lit_f_short() || name == lit_filter_search() {
        Some(OptKind::FilterSearch)
    } else if name == lit_v_short() || name == lit_value() {
        Some(OptKind::Value)
    } else if name == lit_s_short() || name == lit_sleep() {
        Some(OptKind::Sleep)
    } else if name == lit_cap_s() || name == lit_freeze() {
        Some(OptKind::Freeze)
    } else if name == lit_a_short() || name == lit_address() {
        Some(OptKind::Address)
    } else {
        None
    }
}

/// The action a verb token denotes.
pub open spec fn verb_of(tok: Seq<u8>) -> Option<Action> {
    if tok == lit_search() {
        Some(Action::Search)
    } else if tok == lit_write_verb() {
        Some(Action::WriteMemory)
    } else if tok == lit_display() {
        Some(Action::Display)
    } else if tok == lit_exit_verb() {
        Some(Action::Exit)
    } else {
        None
    }
}

/// The interpretation a `--dataType` value denotes.
pub open spec fn kind_of(p: Seq<u8>) -> Option<FilterOption> {
    if p == lit_u8() {
        Some(FilterOption::U8)
    } else if p == lit_u16() {
        Some(FilterOption::U16)
    } else if p == lit_u32() {
        Some(FilterOption::U32)
    } else if p == lit_u64() {
        Some(FilterOption::U64)
    } else if p == lit_i32() {
        Some(FilterOption::I32)
    } else if p == lit_i64() {
        Some(FilterOption::I64)
    } else if p == lit_f32() {
        Some(FilterOption::F32)
    } else if p == lit_f64() {
        Some(FilterOption::F64)
    } else {
        None
    }
}

/// The ghost image of a `Configuration`: what the parse of a command line
/// must produce, stated over mathematical sequences.
pub struct ConfigModel {
    pub action: Action,
    pub help: bool,
    pub filters: Seq<FilterOption>,
    pub scan_start: ScanStartFlag,
    pub scan_type: ScanType,
    pub value: Seq<u8>,
    pub sleep: u64,
    pub freeze: bool,
    pub address: usize,
    pub threads: usize,
}

/// The model a command starts from, before its options are applied.
pub open spec fn initial_model() -> ConfigModel {
    ConfigModel {
        action: Action::Search,
        help: false,
        filters: seq![FilterOption::U32],
        scan_start: ScanStartFlag::NewScan,
        scan_type: ScanType::ExactValue,
        value: seq![48u8],
        sleep: 0,
        freeze: false,
        address: 0,
        threads: 1,
    }
}

/// Whether the configuration `c` realises the model `m`.
pub open spec fn models(c: Configuration, m: ConfigModel) -> bool {
    &&& c.action == m.action
    &&& c.help == m.help
    &&& c.filters@ == m.filters
    &&& c.scan_start == m.scan_start
    &&& c.scan_type == m.scan_type
    &&& c.value_to_search@ == m.value
    &&& c.sleep_time == m.sleep
    &&& c.freeze == m.freeze
    &&& c.address_selected == m.address
    &&& c.thread_count == m.threads
}

/// The interpretations a `--dataType` value list selects, in the order given,
/// unknown names dropped.
pub open spec fn filters_of(params: Seq<Seq<u8>>) -> Seq<FilterOption>
    decreases params.len(),
{
    if params.len() == 0 {
        Seq::empty()
    } else {
        let rest = filters_of(params.drop_last());
        match kind_of(params.last()) {
            Some(f) => rest.push(f),
            None => rest,
        }
    }
}

/// The value a numeric parameter denotes, when it is all digits and fits the
/// machine word.
pub open spec fn usize_param(p: Seq<u8>) -> Option<usize> {
    if p.len() > 0 && all_dec_digits(p) && dec_value(p) <= usize::MAX {
        Some(dec_value(p) as usize)
    } else {
        None
    }
}

/// The value a numeric parameter denotes, when it is all digits and fits 64
/// bits.
pub open spec fn u64_param(p: Seq<u8>) -> Option<u64> {
    if p.len() > 0 && all_dec_digits(p) && dec_value(p) <= u64::MAX {
        Some(dec_value(p) as u64)
    } else {
        None
    }
}

/// What one recognised option, with enough values, does to the model.
pub open spec fn apply_effect(m: ConfigModel, o: OptKind, params: Seq<Seq<u8>>) -> Result<
    ConfigModel,
    ArgError,
> {
    match o {
        OptKind::Help => Ok(ConfigModel { help: true, ..m }),
        OptKind::DataType => Ok(ConfigModel { filters: filters_of(params), ..m }),
        OptKind::Jobs => match usize_param(params[0]) {
            Some(n) => if n >= 1 {
                Ok(ConfigModel { threads: n, ..m })
            } else {
                Err(ArgError::InsufficientParameters)
            },
            None => Err(ArgError::InsufficientParameters),
        },
        OptKind::FilterSearch => Ok(ConfigModel { scan_start: ScanStartFlag::ReuseResults, ..m }),
        OptKind::Value => Ok(ConfigModel { value: params[0], ..m }),
        OptKind::Sleep => match u64_param(params[0]) {
            Some(n) => Ok(ConfigModel { sleep: n, ..m }),
            None => Err(ArgError::InsufficientParameters),
        },
        OptKind::Freeze => Ok(ConfigModel { freeze: true, ..m }),
        OptKind::Address => match usize_param(params[0]) {
            Some(n) => Ok(ConfigModel { address: n, ..m }),
            None => Err(ArgError::InsufficientParameters),
        },
    }
}

/// The values of an option token: what stands between its first `=` and its
/// second, split at every comma — nothing when there is no `=` or nothing
/// follows it.
pub open spec fn params_of(tok: Seq<u8>) -> Seq<Seq<u8>> {
    let parts = spec_split(tok, 61);
    if parts.len() > 1 && parts[1].len() > 0 {
        spec_split(parts[1], 44)
    } else {
        Seq::empty()
    }
}

/// What one token does to the model: a token that does not start with `-` is
/// skipped; an option must be known and must bring at least as many values as
/// it requires.
pub open spec fn apply_option(m: ConfigModel, tok: Seq<u8>) -> Result<ConfigModel, ArgError> {
    if !(tok.len() >= 1 && tok[0] == 45) {
        Ok(m)
    } else {
        match opt_of(spec_split(tok, 61)[0]) {
            None => Err(ArgError::OptionDoesntExist),
            Some(o) => {
                if params_of(tok).len() < arity(o) {
                    Err(ArgError::InsufficientParameters)
                } else {
                    apply_effect(m, o, params_of(tok))
                }
            },
        }
    }
}

/// The model after the option tokens from `i` on, or the first error.
pub open spec fn parse_options(m: ConfigModel, toks: Seq<Seq<u8>>, i: int) -> Result<
    ConfigModel,
    ArgError,
> 
    decreases toks.len() - i,
{
    if i < 0 || i >= toks.len() {
        Ok(m)
    } else {
        match apply_option(m, toks[i]) {
            Ok(m2) => parse_options(m2, toks, i + 1),
            Err(e) => Err(e),
        }
    }
}

/// The full parse of one command line: the first token picks the action, the
/// remaining tokens are applied in order.
pub open spec fn spec_parse(cmd: Seq<u8>) -> Result<ConfigModel, ArgError> {
    let toks = spec_split(cmd, 32);
    match verb_of(toks[0]) {
        None => Err(ArgError::InvalidCommand),
        Some(a) => parse_options(ConfigModel { action: a, ..initial_model() }, toks, 1),
    }
}

/// Copies a byte string.
fn copy_bytes(v: &Vec<u8>) -> (r: Vec<u8>)
    ensures
        r@ == v@,
{
    let n: usize = v.len();
    let mut out: Vec<u8> = Vec::new();
    let mut i: usize = 0;
    while i < n
        invariant
            0 <= i <= n == v@.len(),
            out@ == v@.take(i as int),
        decreases n - i,
    {
        out.push(v[i]);
        proof {
            assert(v@.take(i + 1) =~= v@.take(i as int).push(v@[i as int]));
        }
        i = i + 1;
    }
    proof {
        assert(v@.take(n as int) =~= v@);
    }
    out
}

/// Whether the token reads as the given literal.
fn lit_eq(t: &[u8], pat: Vec<u8>, Ghost(l): Ghost<Seq<u8>>) -> (r: bool)
    requires
        pat@ =~= l,
    ensures
        r <==> t@ == l,
{
    bytes_eq(t, pat.as_slice())
}

/// The option a token's name denotes.
fn classify_option(name: &[u8]) -> (r: Option<OptKind>)
    ensures
        r == opt_of(name@),
{
    if lit_eq(name, vec![45u8, 104], Ghost(lit_h())) || lit_eq(name, vec![45u8, 45, 104, 101, 108, 112], Ghost(lit_help())) {
        Some(OptKind::Help)
    } else if lit_eq(name, vec![45u8, 68], Ghost(lit_d_short())) || lit_eq(name, vec![45u8, 45, 100, 97, 116, 97, 84, 121, 112, 101], Ghost(lit_data_type())) {
        Some(OptKind::DataType)
    } else if lit_eq(name, vec![45u8, 106], Ghost(lit_j_short())) || lit_eq(name, vec![45u8, 45, 106, 111, 98, 115], Ghost(lit_jobs())) {
        Some(OptKind::Jobs)
    } else if lit_eq(name, vec![45u8, 70], Ghost(lit_f_short())) || lit_eq(name, vec![45u8, 45, 102, 105, 108, 116, 101, 114, 83, 101, 97, 114, 99, 104], Ghost(lit_filter_search())) {
        Some(OptKind::FilterSearch)
    } else if lit_eq(name, vec![45u8, 118], Ghost(lit_v_short())) || lit_eq(name, vec![45u8, 45, 118, 97, 108, 117, 101], Ghost(lit_value())) {
        Some(OptKind::Value)
    } else if lit_eq(name, vec![45u8, 115], Ghost(lit_s_short())) || lit_eq(name, vec![45u8, 45, 115, 108, 101, 101, 112], Ghost(lit_sleep())) {
        Some(OptKind::Sleep)
    } else if lit_eq(name, vec![45u8, 83], Ghost(lit_cap_s())) || lit_eq(name, vec![45u8, 45, 102, 114, 101, 101, 122, 101], Ghost(lit_freeze())) {
        Some(OptKind::Freeze)
    } else if lit_eq(name, vec![45u8, 97], Ghost(lit_a_short())) || lit_eq(name, vec![45u8, 45, 97, 100, 100, 114, 101, 115, 115], Ghost(lit_address())) {
        Some(OptKind::Address)
    } else {
        None
    }
}

/// The action a verb token denotes.
fn classify_verb(tok: &[u8]) -> (r: Option<Action>)
    ensures
        r == verb_of(tok@),
{
    if lit_eq(tok, vec![115u8, 101, 97, 114, 99, 104], Ghost(lit_search())) {
        Some(Action::Search)
    } else if lit_eq(tok, vec![119u8, 114, 105, 116, 101], Ghost(lit_write_verb())) {
        Some(Action::WriteMemory)
    } else if lit_eq(tok, vec![100u8, 105, 115, 112, 108, 97, 121], Ghost(lit_display())) {
        Some(Action::Display)
    } else if lit_eq(tok, vec![101u8, 120, 105, 116], Ghost(lit_exit_verb())) {
        Some(Action::Exit)
    } else {
        None
    }
}

/// The interpretation a `--dataType` value denotes.
fn classify_kind(p: &[u8]) -> (r: Option<FilterOption>)
    ensures
        r == kind_of(p@),
{
    if lit_eq(p, vec![117u8, 56], Ghost(lit_u8())) {
        Some(FilterOption::U8)
    } else if lit_eq(p, vec![117u8, 49, 54], Ghost(lit_u16())) {
        Some(FilterOption::U16)
    } else if lit_eq(p, vec![117u8, 51, 50], Ghost(lit_u32())) {
        Some(FilterOption::U32)
    } else if lit_eq(p, vec![117u8, 54, 52], Ghost(lit_u64())) {
        Some(FilterOption::U64)
    } else if lit_eq(p, vec![105u8, 51, 50], Ghost(lit_i32())) {
        Some(FilterOption::I32)
    } else if lit_eq(p, vec![105u8, 54, 52], Ghost(lit_i64())) {
        Some(FilterOption::I64)
    } else if lit_eq(p, vec![102u8, 51, 50], Ghost(lit_f32())) {
        Some(FilterOption::F32)
    } else if lit_eq(p, vec![102u8, 54, 52], Ghost(lit_f64())) {
        Some(FilterOption::F64)
    } else {
        None
    }
}

/// The interpretations a `--dataType` value list selects.
fn collect_filters(params: &Vec<Vec<u8>>) -> (r: Vec<FilterOption>)
    ensures
        r@ == filters_of(params.deep_view()),
{
    let n: usize = params.len();
    let mut out: Vec<FilterOption> = Vec::new();
    let mut i: usize = 0;
    proof {
        assert(params.deep_view().take(0) =~= Seq::<Seq<u8>>::empty());
    }
    while i < n
        invariant
            0 <= i <= n == params@.len(),
            params.deep_view().len() == n,
            out@ == filters_of(params.deep_view().take(i as int)),
        decreases n - i,
    {
        let ghost dv = params.deep_view();
        proof {
            assert(dv[i as int] == params@[i as int]@);
            assert(dv.take(i + 1).drop_last() =~= dv.take(i as int));
            assert(dv.take(i + 1).last() == dv[i as int]);
        }
        match classify_kind(params[i].as_slice()) {
            Some(f) => out.push(f),
            None => {},
        }
        i = i + 1;
    }
    proof {
        assert(params.deep_view().take(n as int) =~= params.deep_view());
    }
    out
}

/// Reads a numeric parameter that must fit the machine word.
fn parse_usize_param(p: &Vec<u8>) -> (r: Option<usize>)
    ensures
        r == usize_param(p@),
{
    proof {
        assert(p@.subrange(0, p@.len() as int) =~= p@);
    }
    match parse_decimal(p.as_slice(), 0) {
        Some(v) => {
            if v <= usize::MAX as u64 {
                Some(v as usize)
            } else {
                None
            }
        },
        None => None,
    }
}

/// Reads a numeric parameter that must fit 64 bits.
fn parse_u64_param(p: &Vec<u8>) -> (r: Option<u64>)
    ensures
        r == u64_param(p@),
{
    proof {
        assert(p@.subrange(0, p@.len() as int) =~= p@);
    }
    parse_decimal(p.as_slice(), 0)
}

/// Splits `s` at every occurrence of `sep`, empty tokens kept.
fn tokenize(s: &[u8], sep: u8) -> (r: Vec<Vec<u8>>)
    ensures
        r.deep_view() == spec_split(s@, sep),
        r@.len() == spec_split(s@, sep).len(),
{
    let n: usize = s.len();
    let mut tokens: Vec<Vec<u8>> = Vec::new();
    let mut cur: Vec<u8> = Vec::new();
    let mut i: usize = 0;
    proof {
        lemma_spec_split_len(s@, sep);
        assert(s@.skip(0) =~= s@);
        assert(spec_split(s@, sep) =~~= splice(
            tokens.deep_view(),
            cur@,
            spec_split(s@.skip(0), sep),
        ));
    }
    while i < n
        invariant
            0 <= i <= n == s@.len(),
            spec_split(s@, sep) == splice(
                tokens.deep_view(),
                cur@,
                spec_split(s@.skip(i as int), sep),
            ),
        decreases n - i,
    {
        let ghost done0 = tokens.deep_view();
        let ghost cur0 = cur@;
        let ghost rest0 = spec_split(s@.skip(i as int), sep);
        proof {
            assert(s@.skip(i as int).len() == n - i);
            assert(s@.skip(i as int)[0] == s@[i as int]);
            assert(s@.skip(i as int).skip(1) =~= s@.skip(i + 1));
            lemma_spec_split_len(s@.skip(i + 1), sep);
            lemma_spec_split_len(s@.skip(i as int), sep);
        }
        let ghost rest1 = spec_split(s@.skip(i + 1), sep);
        let b = s[i];
        if b == sep {
            tokens.push(cur);
            cur = Vec::new();
            proof {
                assert(rest0 == seq![Seq::<u8>::empty()] + rest1);
                assert(tokens.deep_view() =~~= done0.push(cur0));
                assert(cur0 + rest0[0] =~= cur0);
                assert(cur@ + rest1[0] =~= rest1[0]);
                assert(rest0.skip(1) =~= rest1);
                assert(splice(done0, cur0, rest0) =~~= splice(tokens.deep_view(), cur@, rest1));
            }
        } else {
            cur.push(b);
            proof {
                assert(rest0 == seq![seq![s@[i as int]] + rest1[0]] + rest1.skip(1));
                assert(cur0 + rest0[0] =~= cur@ + rest1[0]);
                assert(rest0.skip(1) =~= rest1.skip(1));
                assert(splice(done0, cur0, rest0) =~~= splice(tokens.deep_view(), cur@, rest1));
            }
        }
        i = i + 1;
    }
    let ghost done0 = tokens.deep_view();
    let ghost cur0 = cur@;
    tokens.push(cur);
    proof {
        assert(s@.skip(n as int).len() == 0);
        let restn = spec_split(s@.skip(n as int), sep);
        assert(restn == seq![Seq::<u8>::empty()]);
        assert(tokens.deep_view() =~~= done0.push(cur0));
        assert(cur0 + restn[0] =~= cur0);
        assert(splice(done0, cur0, restn) =~~= tokens.deep_view());
    }
    tokens
}

/// What `tokenize` is reassembling: the tokens already closed, then the split
/// of the unread input with its first token prefixed by the partial token.
spec fn splice(done: Seq<Seq<u8>>, cur: Seq<u8>, rest: Seq<Seq<u8>>) -> Seq<Seq<u8>> {
    done + seq![cur + rest[0]] + rest.skip(1)
}

/// Applies one command token to the configuration.
fn apply_token(config: &mut Configuration, tok: &Vec<u8>, Ghost(m): Ghost<ConfigModel>) -> (r:
    Result<(), ArgError>)
    requires
        models(*old(config), m),
    ensures
        match apply_option(m, tok@) {
            Ok(m2) => r is Ok && models(*final(config), m2),
            Err(e) => r is Err && r->Err_0 == e,
        },
{
    let n = tok.len();
    if n == 0 || tok[0] != 45 {
        return Ok(());
    }
    let parts = tokenize(tok.as_slice(), 61);
    proof {
        lemma_spec_split_len(tok@, 61);
        assert(parts.deep_view()[0] == parts@[0]@);
    }
    let o = match classify_option(parts[0].as_slice()) {
        Some(o) => o,
        None => {
            return Err(ArgError::OptionDoesntExist);
        },
    };
    let params: Vec<Vec<u8>> = if parts.len() > 1 && parts[1].len() > 0 {
        proof {
            assert(parts.deep_view()[1] == parts@[1]@);
        }
        tokenize(parts[1].as_slice(), 44)
    } else {
        Vec::new()
    };
    proof {
        if parts@.len() > 1 {
            assert(parts.deep_view()[1] == parts@[1]@);
        }
        assert(params.deep_view() =~~= params_of(tok@));
        assert(params.deep_view().len() == params@.len());
    }
    let needs_value = match o {
        OptKind::Help => false,
        OptKind::DataType => true,
        OptKind::Jobs => true,
        OptKind::FilterSearch => false,
        OptKind::Value => true,
        OptKind::Sleep => true,
        OptKind::Freeze => false,
        OptKind::Address => true,
    };
    if needs_value && params.len() < 1 {
        return Err(ArgError::InsufficientParameters);
    }
    proof {
        if params@.len() > 0 {
            assert(params.deep_view()[0] == params@[0]@);
        }
    }
    match o {
        OptKind::Help => {
            config.help = true;
        },
        OptKind::DataType => {
            config.filters = collect_filters(&params);
        },
        OptKind::Jobs => {
            match parse_usize_param(&params[0]) {
                Some(v) => {
                    if v >= 1 {
                        config.thread_count = v;
                    } else {
                        return Err(ArgError::InsufficientParameters);
                    }
                },
                None => {
                    return Err(ArgError::InsufficientParameters);
                },
            }
        },
        OptKind::FilterSearch => {
            config.scan_start = ScanStartFlag::ReuseResults;
        },
        OptKind::Value => {
            config.value_to_search = copy_bytes(&params[0]);
        },
        OptKind::Sleep => {
            match parse_u64_param(&params[0]) {
                Some(v) => {
                    config.sleep_time = v;
                },
                None => {
                    return Err(ArgError::InsufficientParameters);
                },
            }
        },
        OptKind::Freeze => {
            config.freeze = true;
        },
        OptKind::Address => {
            match parse_usize_param(&params[0]) {
                Some(v) => {
                    config.address_selected = v;
                },
                None => {
                    return Err(ArgError::InsufficientParameters);
                },
            }
        },
    }
    Ok(())
}

/// Parses one command line. The result realises exactly the model
/// `spec_parse` assigns to the line's bytes: the verb picks the action, each
/// option token is applied in order, and the first offending token decides
/// the error.
pub fn ParseArg(command: &str) -> (r: Result<Configuration, ArgError>)
    ensures
        ({
            let sr = spec_parse(command.spec_bytes());
            match r {
                Ok(c) => sr is Ok && models(c, sr->Ok_0),
                Err(e) => sr is Err && sr->Err_0 == e,
            }
        }),
{
    let bytes: &[u8] = command.as_bytes();
    let tokens = tokenize(bytes, 32);
    let ghost toks = spec_split(command.spec_bytes(), 32);
    proof {
        lemma_spec_split_len(bytes@, 32);
        assert(tokens.deep_view()[0] == tokens@[0]@);
    }
    let mut config = Configuration::new();
    let action = match classify_verb(tokens[0].as_slice()) {
        Some(a) => a,
        None => {
            return Err(ArgError::InvalidCommand);
        },
    };
    config.action = action;
    let ghost mut m = ConfigModel { action: verb_of(toks[0])->Some_0, ..initial_model() };
    proof {
        assert(config.filters@ =~= m.filters);
        assert(config.value_to_search@ =~= m.value);
        assert(models(config, m));
    }
    let n: usize = tokens.len();
    let mut i: usize = 1;
    while i < n
        invariant
            1 <= i <= n == tokens@.len(),
            toks == tokens.deep_view(),
            toks == spec_split(command.spec_bytes(), 32),
            verb_of(toks[0]) is Some,
            models(config, m),
            spec_parse(command.spec_bytes()) == parse_options(m, toks, i as int),
        decreases n - i,
    {
        proof {
            assert(tokens.deep_view()[i as int] == tokens@[i as int]@);
        }
        match apply_token(&mut config, &tokens[i], Ghost(m)) {
            Ok(()) => {
                proof {
                    m = apply_option(m, toks[i as int])->Ok_0;
                }
            },
            Err(e) => {
                return Err(e);
            },
        }
        i = i + 1;
    }
    Ok(config)
}

/// One option's descriptor: its two spellings, the names of the values it
/// takes, and the line of help text that describes it.
#[derive(Clone, Debug)]
pub struct Arg {
    pub long_option: String,
    pub short_option: String,
    pub parameters: Vec<String>,
    pub description: String,
}

impl Arg {
    /// A descriptor from its four parts.
    pub fn new(long_opt: String, short_opt: String, arg_para: Vec<String>, desc: String) -> (a:
        Arg)
        ensures
            a.long_option@ == long_opt@,
            a.short_option@ == short_opt@,
            a.parameters@ == arg_para@,
            a.description@ == desc@,
    {
        Arg { long_option: long_opt, short_option: short_opt, parameters: arg_para, description: desc }
    }
}

/// The table of recognised options, one descriptor each in the order the
/// help text lists them, under both spellings.
pub fn program_args() -> (r: Vec<Arg>)
    ensures
        r@.len() == 8,
        r@[0].long_option@ == "-h"@ && r@[0].short_option@ == "--help"@,
        r@[1].long_option@ == "-D"@ && r@[1].short_option@ == "--dataType"@,
        r@[2].long_option@ == "-j"@ && r@[2].short_option@ == "--jobs"@,
        r@[3].long_option@ == "-F"@ && r@[3].short_option@ == "--filterSearch"@,
        r@[4].long_option@ == "-v"@ && r@[4].short_option@ == "--value"@,
        r@[5].long_option@ == "-s"@ && r@[5].short_option@ == "--sleep"@,
        r@[6].long_option@ == "-S"@ && r@[6].short_option@ == "--freeze"@,
        r@[7].long_option@ == "-a"@ && r@[7].short_option@ == "--address"@,
{
    let mut args: Vec<Arg> = Vec::new();
    args.push(Arg::new("-h".to_owned(), "--help".to_owned(), Vec::new(), "Displays help text".to_owned()));
    args.push(Arg::new("-D".to_owned(), "--dataType".to_owned(), vec!["value_types...".to_owned()], "Selects which data types should be used in the filters".to_owned()));
    args.push(Arg::new("-j".to_owned(), "--jobs".to_owned(), vec!["number_of_threads".to_owned()], "Selects the maximum number of worker threads".to_owned()));
    args.push(Arg::new("-F".to_owned(), "--filterSearch".to_owned(), Vec::new(), "Filter the previous results (Default is to perform a new search)".to_owned()));
    args.push(Arg::new("-v".to_owned(), "--value".to_owned(), vec!["value".to_owned()], "Value that should be searched".to_owned()));
    args.push(Arg::new("-s".to_owned(), "--sleep".to_owned(), vec!["miliseconds".to_owned()], "Sleep time for write threads (requires freeze)".to_owned()));
    args.push(Arg::new("-S".to_owned(), "--freeze".to_owned(), Vec::new(), "Freeze a value in memory using a write loop (use sleep time to configure intervals)".to_owned()));
    args.push(Arg::new("-a".to_owned(), "--address".to_owned(), vec!["address_hex".to_owned()], "Select an memory address to write (Default is to write to all matches)".to_owned()));
    args
}

} // verus!
