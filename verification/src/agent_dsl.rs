// Agent DSL: parsing and compiling domain-specific agent configuration languages.
use vstd::prelude::*;
use crate::ast::{
    AgentDecl, AgentDeclView, Expr, ExprView, expr_view, ItemView, Item, Program, SkillDecl, SkillDeclView, TriggerDecl,
    TriggerDeclView, exprs_view, lemma_exprs_view, config_view, capped, size_cap, add_capped, lemma_capped_sum,
    stmt_size_capped, expr_size_capped, stmt_size, expr_size,
};
use crate::lexer::{tokenize, lemma_tokenize_spans, lex_result_view, source_fits, tokenize_spec, LexerError};
use crate::parser::{Parser, ParseError, res_view};
use crate::parser_spec::sp_program;
use crate::text::{text_eq, i64_text};
use crate::ssa_text::float_render;
use crate::ast_debug::expr_debug;
use crate::ssa::{SsaFunction, FuncView};
use crate::ir::{IrGenerator, GenState, generate_spec, gen_fits, funcs_view, errors_view};
use crate::type_checker::{items_size, item_size, lemma_items_size_step};
use crate::optimization::{FloatOp, folded, eliminate_dead, total_instrs, optimize, try_optimize, fold_fits};

verus! {

/// Configuration values.  A float keeps the decimal text it was written with.
#[derive(Debug, PartialEq)]
pub enum ConfigValue {
    Int(i64),
    Float(String),
    String(String),
    Bool(bool),
    Null,
    Array(Vec<ConfigValue>),
    Object(Vec<(String, ConfigValue)>),
}

/// Handler types for skills.
#[derive(Debug, Clone, PartialEq)]
pub enum HandlerType {
    Inline(String),
    Function(String),
    Pipeline(Vec<String>),
}

/// Action types for triggers.
#[derive(Debug, PartialEq)]
pub enum ActionType {
    Emit(String),
    Call(String),
    Sequence(Vec<ActionType>),
}

/// A compiled skill.  Its settings are an association list whose keys are distinct.
#[derive(Debug)]
pub struct SkillConfig {
    pub name: String,
    pub handler_type: HandlerType,
    pub timeout_ms: Option<u64>,
    pub retry_count: Option<u32>,
    pub config: Vec<(String, ConfigValue)>,
}

/// A compiled trigger.
#[derive(Debug)]
pub struct TriggerConfig {
    pub event: String,
    /// The guard expression, as text.
    pub guard: Option<String>,
    pub action_type: ActionType,
}

/// Agent configuration compiled from DSL.  Its settings are an association list whose
/// keys are distinct.
#[derive(Debug)]
pub struct AgentConfig {
    pub name: String,
    pub skills: Vec<SkillConfig>,
    pub triggers: Vec<TriggerConfig>,
    pub config: Vec<(String, ConfigValue)>,
}

// ---- Views ----

pub enum ConfigValueView {
    Int(i64),
    Float(Seq<char>),
    String(Seq<char>),
    Bool(bool),
    Null,
    Array(Seq<ConfigValueView>),
    Object(Seq<(Seq<char>, ConfigValueView)>),
}

pub open spec fn cv_view(v: ConfigValue) -> ConfigValueView
    decreases v,
{
    match v {
        ConfigValue::Int(i) => ConfigValueView::Int(i),
        ConfigValue::Float(t) => ConfigValueView::Float(t@),
        ConfigValue::String(s) => ConfigValueView::String(s@),
        ConfigValue::Bool(b) => ConfigValueView::Bool(b),
        ConfigValue::Null => ConfigValueView::Null,
        ConfigValue::Array(vs) => ConfigValueView::Array(cvs_view(vs@)),
        ConfigValue::Object(ps) => ConfigValueView::Object(cps_view(ps@)),
    }
}

pub open spec fn cvs_view(s: Seq<ConfigValue>) -> Seq<ConfigValueView>
    decreases s,
{
    if s.len() == 0 {
        Seq::empty()
    } else {
        seq![cv_view(s[0])] + cvs_view(s.subrange(1, s.len() as int))
    }
}

pub open spec fn cps_view(s: Seq<(String, ConfigValue)>) -> Seq<(Seq<char>, ConfigValueView)>
    decreases s,
{
    if s.len() == 0 {
        Seq::empty()
    } else {
        seq![(s[0].0@, cv_view(s[0].1))] + cps_view(s.subrange(1, s.len() as int))
    }
}

impl View for ConfigValue {
    type V = ConfigValueView;

    open spec fn view(&self) -> ConfigValueView {
        cv_view(*self)
    }
}

proof fn lemma_cvs_view(s: Seq<ConfigValue>)
    ensures
        cvs_view(s).len() == s.len(),
        forall|i: int| 0 <= i < s.len() ==> #[trigger] cvs_view(s)[i] == cv_view(s[i]),
    decreases s.len(),
{
    if s.len() > 0 {
        lemma_cvs_view(s.subrange(1, s.len() as int));
    }
}

proof fn lemma_cps_view(s: Seq<(String, ConfigValue)>)
    ensures
        cps_view(s).len() == s.len(),
        forall|i: int| 0 <= i < s.len() ==> #[trigger] cps_view(s)[i] == (s[i].0@, cv_view(s[i].1)),
    decreases s.len(),
{
    if s.len() > 0 {
        lemma_cps_view(s.subrange(1, s.len() as int));
    }
}

pub enum HandlerTypeView {
    Inline(Seq<char>),
    Function(Seq<char>),
    Pipeline(Seq<Seq<char>>),
}

pub enum ActionTypeView {
    Emit(Seq<char>),
    Call(Seq<char>),
    Sequence(Seq<ActionTypeView>),
}

pub open spec fn strings_view(s: Seq<String>) -> Seq<Seq<char>> {
    Seq::new(s.len(), |i: int| s[i]@)
}

impl View for HandlerType {
    type V = HandlerTypeView;

    open spec fn view(&self) -> HandlerTypeView {
        match self {
            HandlerType::Inline(s) => HandlerTypeView::Inline(s@),
            HandlerType::Function(s) => HandlerTypeView::Function(s@),
            HandlerType::Pipeline(v) => HandlerTypeView::Pipeline(strings_view(v@)),
        }
    }
}

pub open spec fn action_view(a: ActionType) -> ActionTypeView
    decreases a,
{
    match a {
        ActionType::Emit(s) => ActionTypeView::Emit(s@),
        ActionType::Call(s) => ActionTypeView::Call(s@),
        ActionType::Sequence(v) => ActionTypeView::Sequence(actions_view(v@)),
    }
}

pub open spec fn actions_view(s: Seq<ActionType>) -> Seq<ActionTypeView>
    decreases s,
{
    if s.len() == 0 {
        Seq::empty()
    } else {
        seq![action_view(s[0])] + actions_view(s.subrange(1, s.len() as int))
    }
}

impl View for ActionType {
    type V = ActionTypeView;

    open spec fn view(&self) -> ActionTypeView {
        action_view(*self)
    }
}

pub struct SkillConfigView {
    pub name: Seq<char>,
    pub handler_type: HandlerTypeView,
    pub timeout_ms: Option<u64>,
    pub retry_count: Option<u32>,
    pub config: Seq<(Seq<char>, ConfigValueView)>,
}

pub struct TriggerConfigView {
    pub event: Seq<char>,
    pub guard: Option<Seq<char>>,
    pub action_type: ActionTypeView,
}

pub struct AgentConfigView {
    pub name: Seq<char>,
    pub skills: Seq<SkillConfigView>,
    pub triggers: Seq<TriggerConfigView>,
    pub config: Seq<(Seq<char>, ConfigValueView)>,
}

impl View for SkillConfig {
    type V = SkillConfigView;

    open spec fn view(&self) -> SkillConfigView {
        SkillConfigView {
            name: self.name@,
            handler_type: self.handler_type@,
            timeout_ms: self.timeout_ms,
            retry_count: self.retry_count,
            config: cps_view(self.config@),
        }
    }
}

pub open spec fn opt_string_view(s: Option<String>) -> Option<Seq<char>> {
    match s {
        Some(t) => Some(t@),
        None => None,
    }
}

impl View for TriggerConfig {
    type V = TriggerConfigView;

    open spec fn view(&self) -> TriggerConfigView {
        TriggerConfigView { event: self.event@, guard: opt_string_view(self.guard), action_type: self.action_type@ }
    }
}

impl View for AgentConfig {
    type V = AgentConfigView;

    open spec fn view(&self) -> AgentConfigView {
        AgentConfigView {
            name: self.name@,
            skills: Seq::new(self.skills@.len(), |i: int| self.skills@[i]@),
            triggers: Seq::new(self.triggers@.len(), |i: int| self.triggers@[i]@),
            config: cps_view(self.config@),
        }
    }
}

// ---- What compiling an agent gives ----


/// A setting's value: literals keep their value, an array its elements' values, and any
/// other expression is null.
pub open spec fn config_value_of(e: ExprView) -> ConfigValueView
    decreases e,
{
    match e {
        ExprView::IntLiteral(i, _) => ConfigValueView::Int(i),
        ExprView::FloatLiteral(t, _) => ConfigValueView::Float(t),
        ExprView::StringLiteral(s, _) => ConfigValueView::String(s),
        ExprView::BoolLiteral(b, _) => ConfigValueView::Bool(b),
        ExprView::NullLiteral(_) => ConfigValueView::Null,
        ExprView::Array(es, _) => ConfigValueView::Array(config_values_of(es)),
        _ => ConfigValueView::Null,
    }
}

pub open spec fn config_values_of(es: Seq<ExprView>) -> Seq<ConfigValueView>
    decreases es,
{
    if es.len() == 0 {
        Seq::empty()
    } else {
        seq![config_value_of(es[0])] + config_values_of(es.subrange(1, es.len() as int))
    }
}

proof fn lemma_config_values_of(es: Seq<ExprView>)
    ensures
        config_values_of(es).len() == es.len(),
        forall|i: int| 0 <= i < es.len() ==> #[trigger] config_values_of(es)[i] == config_value_of(es[i]),
    decreases es.len(),
{
    if es.len() > 0 {
        lemma_config_values_of(es.subrange(1, es.len() as int));
    }
}

/// The position of key `k` in an association list, the last one that has it.
pub open spec fn key_index(acc: Seq<(Seq<char>, ConfigValueView)>, k: Seq<char>) -> Option<int>
    decreases acc.len(),
{
    if acc.len() == 0 {
        None
    } else if acc.last().0 == k {
        Some(acc.len() - 1)
    } else {
        key_index(acc.drop_last(), k)
    }
}

/// Settings collected into a map: each key once, in the order keys first appear, with
/// the value of its last entry.
pub open spec fn config_entries(cfg: Seq<(Seq<char>, ExprView)>) -> Seq<(Seq<char>, ConfigValueView)>
    decreases cfg.len(),
{
    if cfg.len() == 0 {
        Seq::empty()
    } else {
        let acc = config_entries(cfg.drop_last());
        let (k, e) = cfg.last();
        match key_index(acc, k) {
            Some(j) => acc.update(j, (k, config_value_of(e))),
            None => acc.push((k, config_value_of(e))),
        }
    }
}

/// The expression of the last setting named `k`.
pub open spec fn last_entry(cfg: Seq<(Seq<char>, ExprView)>, k: Seq<char>) -> Option<ExprView>
    decreases cfg.len(),
{
    if cfg.len() == 0 {
        None
    } else if cfg.last().0 == k {
        Some(cfg.last().1)
    } else {
        last_entry(cfg.drop_last(), k)
    }
}

/// Whether an entry of collected settings holds the value of the last setting with its key.
pub open spec fn holds_last(cfg: Seq<(Seq<char>, ExprView)>, entry: (Seq<char>, ConfigValueView)) -> bool {
    match last_entry(cfg, entry.0) {
        Some(e) => entry.1 == config_value_of(e),
        None => false,
    }
}

proof fn lemma_key_index(acc: Seq<(Seq<char>, ConfigValueView)>, k: Seq<char>)
    ensures
        key_index(acc, k) matches Some(j) ==> 0 <= j < acc.len() && acc[j].0 == k,
        key_index(acc, k) is None ==> forall|i: int| 0 <= i < acc.len() ==> acc[i].0 != k,
    decreases acc.len(),
{
    if acc.len() > 0 {
        lemma_key_index(acc.drop_last(), k);
        if acc.last().0 != k {
            assert forall|i: int| 0 <= i < acc.len() - 1 implies acc[i] == acc.drop_last()[i] by {}
        }
    }
}

/// Collecting settings keeps each key once, has a key exactly where some setting has it,
/// and gives each key the value of its last setting (later settings override earlier ones).
pub proof fn lemma_config_entries(cfg: Seq<(Seq<char>, ExprView)>)
    ensures
        forall|i: int, j: int|
            0 <= i < j < config_entries(cfg).len() ==> (#[trigger] config_entries(cfg)[i]).0 != (
            #[trigger] config_entries(cfg)[j]).0,
        forall|k: Seq<char>| (#[trigger] key_index(config_entries(cfg), k)) is Some <==> last_entry(cfg, k) is Some,
        forall|i: int| 0 <= i < config_entries(cfg).len() ==> holds_last(cfg, #[trigger] config_entries(cfg)[i]),
    decreases cfg.len(),
{
    if cfg.len() > 0 {
        let c0 = cfg.drop_last();
        let acc = config_entries(c0);
        lemma_config_entries(c0);
        let (k, e) = cfg.last();
        let v = config_value_of(e);
        let r = config_entries(cfg);
        lemma_key_index(acc, k);
        assert forall|q: Seq<char>| q != k implies last_entry(cfg, q) == last_entry(c0, q) by {}
        match key_index(acc, k) {
            Some(j) => {
                assert(r == acc.update(j, (k, v)));
                assert forall|i: int| 0 <= i < r.len() implies holds_last(cfg, #[trigger] r[i]) by {
                    if i != j {
                        assert(r[i] == acc[i]);
                        assert(holds_last(c0, acc[i]));
                        assert(acc[i].0 != k);
                    }
                }
                assert forall|q: Seq<char>| (#[trigger] key_index(r, q)) is Some <==> last_entry(cfg, q) is Some by {
                    lemma_key_index(r, q);
                    lemma_key_index(acc, q);
                    if q != k {
                        if let Some(m) = key_index(acc, q) {
                            assert(r[m].0 == q);
                        }
                        if let Some(m) = key_index(r, q) {
                            assert(acc[m].0 == q);
                        }
                    } else {
                        assert(r[j].0 == q);
                    }
                }
            },
            None => {
                assert(r == acc.push((k, v)));
                assert forall|i: int| 0 <= i < r.len() implies holds_last(cfg, #[trigger] r[i]) by {
                    if i < acc.len() {
                        assert(r[i] == acc[i]);
                        assert(holds_last(c0, acc[i]));
                        assert(acc[i].0 != k);
                    }
                }
                assert forall|q: Seq<char>| (#[trigger] key_index(r, q)) is Some <==> last_entry(cfg, q) is Some by {
                    lemma_key_index(r, q);
                    lemma_key_index(acc, q);
                    if q != k {
                        if let Some(m) = key_index(acc, q) {
                            assert(r[m].0 == q);
                        }
                        if let Some(m) = key_index(r, q) {
                            assert(m < acc.len());
                            assert(acc[m].0 == q);
                        }
                    } else {
                        assert(r[acc.len() as int].0 == q);
                    }
                }
            },
        }
        assert forall|i: int, j: int| 0 <= i < j < r.len() implies (#[trigger] r[i]).0 != (#[trigger] r[j]).0 by {
            if j < acc.len() {
                assert(r[i].0 == acc[i].0);
                assert(r[j].0 == acc[j].0);
            }
        }
    }
}

/// The expression of the first setting named `key`.
pub open spec fn find_entry(cfg: Seq<(Seq<char>, ExprView)>, key: Seq<char>) -> Option<ExprView>
    decreases cfg.len(),
{
    if cfg.len() == 0 {
        None
    } else if cfg[0].0 == key {
        Some(cfg[0].1)
    } else {
        find_entry(cfg.drop_first(), key)
    }
}

/// An integer literal's value.
pub open spec fn int_of(e: ExprView) -> Option<i64> {
    match e {
        ExprView::IntLiteral(i, _) => Some(i),
        _ => None,
    }
}

/// The names of a pipeline: its identifiers and string literals, in order.
pub open spec fn pipeline_names(es: Seq<ExprView>) -> Seq<Seq<char>>
    decreases es.len(),
{
    if es.len() == 0 {
        Seq::empty()
    } else {
        let rest = pipeline_names(es.drop_last());
        match es.last() {
            ExprView::Ident(s, _) => rest.push(s),
            ExprView::StringLiteral(s, _) => rest.push(s),
            _ => rest,
        }
    }
}

/// A skill's handler: a string is inline text, a name a function, an array a pipeline;
/// anything else is inline text of the expression.
pub open spec fn handler_of(e: ExprView) -> HandlerTypeView {
    match e {
        ExprView::StringLiteral(s, _) => HandlerTypeView::Inline(s),
        ExprView::Ident(n, _) => HandlerTypeView::Function(n),
        ExprView::Array(es, _) => HandlerTypeView::Pipeline(pipeline_names(es)),
        _ => HandlerTypeView::Inline(expr_debug(e)),
    }
}

/// A trigger's action: `emit("x")` emits `x`; a call of a name, or a name, calls it;
/// anything else calls the text of the expression.
pub open spec fn action_of(e: ExprView) -> ActionTypeView {
    match e {
        ExprView::Call { callee, args, .. } => match *callee {
            ExprView::Ident(name, _) => if name == "emit"@ && args.len() > 0 {
                match args[0] {
                    ExprView::StringLiteral(s, _) => ActionTypeView::Emit(s),
                    _ => ActionTypeView::Call(name),
                }
            } else {
                ActionTypeView::Call(name)
            },
            _ => ActionTypeView::Call(expr_debug(e)),
        },
        ExprView::Ident(n, _) => ActionTypeView::Call(n),
        _ => ActionTypeView::Call(expr_debug(e)),
    }
}

pub open spec fn skill_config_of(s: SkillDeclView) -> SkillConfigView {
    SkillConfigView {
        name: s.name,
        handler_type: handler_of(s.handler),
        timeout_ms: match find_entry(s.config, "timeout"@) {
            Some(e) => match int_of(e) {
                Some(i) => Some(i as u64),
                None => None,
            },
            None => None,
        },
        retry_count: match find_entry(s.config, "retry"@) {
            Some(e) => match int_of(e) {
                Some(i) => Some(i as u32),
                None => None,
            },
            None => None,
        },
        config: config_entries(s.config),
    }
}

pub open spec fn trigger_config_of(t: TriggerDeclView) -> TriggerConfigView {
    TriggerConfigView {
        event: t.event,
        guard: match t.guard {
            Some(g) => Some(expr_debug(g)),
            None => None,
        },
        action_type: action_of(t.action),
    }
}

pub open spec fn agent_config_of(a: AgentDeclView) -> AgentConfigView {
    AgentConfigView {
        name: a.name,
        skills: Seq::new(a.skills.len(), |i: int| skill_config_of(a.skills[i])),
        triggers: Seq::new(a.triggers.len(), |i: int| trigger_config_of(a.triggers[i])),
        config: config_entries(a.config),
    }
}

/// The first agent declaration among the items.
pub open spec fn first_agent(items: Seq<ItemView>) -> Option<AgentDeclView>
    decreases items.len(),
{
    if items.len() == 0 {
        None
    } else {
        match items[0] {
            ItemView::Agent(a) => Some(a),
            _ => first_agent(items.drop_first()),
        }
    }
}

/// Compiling an agent: lexer errors, each as `lexer error: ` and its text; a parse error's
/// text; the first agent's configuration; or an error when there is no agent.
pub open spec fn compile_agent_spec(src: Seq<char>) -> Result<AgentConfigView, Seq<Seq<char>>> {
    match tokenize_spec(src) {
        Err(errs) => Err(Seq::new(errs.len(), |i: int| "lexer error: "@ + LexerError::text_spec(errs[i]))),
        Ok(toks) => match sp_program(toks, 0, Seq::empty()).0 {
            Err(e) => Err(seq![ParseError::text_spec(e)]),
            Ok(items) => match first_agent(items) {
                Some(a) => Ok(agent_config_of(a)),
                None => Err(seq!["no agent declaration found"@]),
            },
        },
    }
}

pub open spec fn agent_result_view(r: Result<AgentConfig, Vec<String>>) -> Result<AgentConfigView, Seq<Seq<char>>> {
    match r {
        Ok(c) => Ok(c@),
        Err(es) => Err(strings_view(es@)),
    }
}

// ---- Compiling ----

#[verifier::loop_isolation(false)]
fn config_value(e: &Expr) -> (r: ConfigValue)
    ensures
        r@ == config_value_of(e@),
    decreases e,
{
    match e {
        Expr::IntLiteral(i, _) => ConfigValue::Int(*i),
        Expr::FloatLiteral(t, _) => ConfigValue::Float(t.clone()),
        Expr::StringLiteral(s, _) => ConfigValue::String(s.clone()),
        Expr::BoolLiteral(b, _) => ConfigValue::Bool(*b),
        Expr::NullLiteral(_) => ConfigValue::Null,
        Expr::Array(elems, _) => {
            let ghost ev = exprs_view(elems@);
            proof {
                lemma_exprs_view(elems@);
                lemma_config_values_of(ev);
            }
            let mut out: Vec<ConfigValue> = Vec::new();
            let mut i: usize = 0;
            while i < elems.len()
                invariant
                    0 <= i <= elems@.len(),
                    ev == exprs_view(elems@),
                    ev.len() == elems@.len(),
                    forall|k: int| 0 <= k < ev.len() ==> #[trigger] ev[k] == elems@[k]@,
                    config_values_of(ev).len() == ev.len(),
                    forall|k: int| 0 <= k < ev.len() ==> #[trigger] config_values_of(ev)[k] == config_value_of(ev[k]),
                    out@.len() == i,
                    forall|k: int| 0 <= k < i ==> (#[trigger] out@[k])@ == config_values_of(ev)[k],
                decreases elems@.len() - i,
            {
                let v = config_value(&elems[i]);
                out.push(v);
                i = i + 1;
            }
            proof {
                lemma_cvs_view(out@);
                assert(cvs_view(out@) =~= config_values_of(ev));
            }
            ConfigValue::Array(out)
        },
        _ => ConfigValue::Null,
    }
}

fn pipeline(elems: &Vec<Expr>) -> (r: Vec<String>)
    ensures
        strings_view(r@) == pipeline_names(exprs_view(elems@)),
{
    let ghost ev = exprs_view(elems@);
    proof {
        lemma_exprs_view(elems@);
    }
    let mut out: Vec<String> = Vec::new();
    let mut i: usize = 0;
    while i < elems.len()
        invariant
            0 <= i <= elems@.len(),
            ev == exprs_view(elems@),
            ev.len() == elems@.len(),
            forall|k: int| 0 <= k < ev.len() ==> #[trigger] ev[k] == elems@[k]@,
            strings_view(out@) == pipeline_names(ev.take(i as int)),
        decreases elems@.len() - i,
    {
        proof {
            assert(ev.take(i + 1).drop_last() =~= ev.take(i as int));
            assert(ev.take(i + 1).last() == elems@[i as int]@);
        }
        let ghost before = out@;
        match &elems[i] {
            Expr::Ident(s, _) => {
                out.push(s.clone());
                assert(strings_view(out@) =~= strings_view(before).push(s@));
            },
            Expr::StringLiteral(s, _) => {
                out.push(s.clone());
                assert(strings_view(out@) =~= strings_view(before).push(s@));
            },
            _ => {},
        }
        i = i + 1;
    }
    assert(ev.take(ev.len() as int) =~= ev);
    out
}

fn handler(e: &Expr) -> (r: HandlerType)
    ensures
        r@ == handler_of(e@),
{
    match e {
        Expr::StringLiteral(s, _) => HandlerType::Inline(s.clone()),
        Expr::Ident(n, _) => HandlerType::Function(n.clone()),
        Expr::Array(elems, _) => HandlerType::Pipeline(pipeline(elems)),
        _ => HandlerType::Inline(e.debug_text()),
    }
}

fn action(e: &Expr) -> (r: ActionType)
    ensures
        r@ == action_of(e@),
{
    proof {
        reveal_strlit("emit");
    }
    match e {
        Expr::Call { callee, args, .. } => {
            proof {
                lemma_exprs_view(args@);
            }
            match &**callee {
                Expr::Ident(name, sp) => {
                    assert(expr_view(**callee) == ExprView::Ident(name@, *sp));
                    let is_emit = text_eq(name.as_str(), "emit");
                    if is_emit && args.len() > 0 {
                        let first = &args[0];
                        assert(exprs_view(args@)[0] == first@);
                        match first {
                            Expr::StringLiteral(s, _) => {
                                return ActionType::Emit(s.clone());
                            },
                            _ => {},
                        }
                    }
                    ActionType::Call(name.clone())
                },
                other => {
                    assert(!(expr_view(*other) is Ident));
                    ActionType::Call(e.debug_text())
                },
            }
        },
        Expr::Ident(n, _) => ActionType::Call(n.clone()),
        _ => ActionType::Call(e.debug_text()),
    }
}

/// The value of the first setting named `key`, where it is an integer literal.
fn setting_int(cfg: &Vec<(String, Expr)>, key: &str) -> (r: Option<i64>)
    ensures
        r == (match find_entry(config_view(cfg@), key@) {
            Some(e) => int_of(e),
            None => None,
        }),
{
    let ghost cv = config_view(cfg@);
    let mut i: usize = 0;
    assert(cv.skip(0) =~= cv);
    while i < cfg.len()
        invariant
            0 <= i <= cfg@.len(),
            cv == config_view(cfg@),
            find_entry(cv, key@) == find_entry(cv.skip(i as int), key@),
        decreases cfg@.len() - i,
    {
        assert(cv.skip(i as int).drop_first() =~= cv.skip(i + 1));
        if text_eq(cfg[i].0.as_str(), key) {
            return match &cfg[i].1 {
                Expr::IntLiteral(v, _) => Some(*v),
                _ => None,
            };
        }
        i = i + 1;
    }
    None
}

/// Settings collected as a map: each key once, with the value of its last entry.
fn collect_config(cfg: &Vec<(String, Expr)>) -> (r: Vec<(String, ConfigValue)>)
    ensures
        cps_view(r@) == config_entries(config_view(cfg@)),
{
    let ghost cv = config_view(cfg@);
    let mut acc: Vec<(String, ConfigValue)> = Vec::new();
    let mut i: usize = 0;
    proof {
        lemma_cps_view(acc@);
        assert(cv.take(0) =~= Seq::<(Seq<char>, ExprView)>::empty());
    }
    while i < cfg.len()
        invariant
            0 <= i <= cfg@.len(),
            cv == config_view(cfg@),
            cps_view(acc@) == config_entries(cv.take(i as int)),
        decreases cfg@.len() - i,
    {
        let ghost a0 = cps_view(acc@);
        proof {
            lemma_cps_view(acc@);
            assert(cv.take(i + 1).drop_last() =~= cv.take(i as int));
            assert(cv.take(i + 1).last() == (cfg@[i as int].0@, cfg@[i as int].1@));
        }
        let key = &cfg[i].0;
        let v = config_value(&cfg[i].1);
        // The last entry with this key.
        let mut j: usize = acc.len();
        assert(a0.take(a0.len() as int) =~= a0);
        while j > 0
            invariant
                0 <= j <= acc@.len(),
                a0 == cps_view(acc@),
                a0.len() == acc@.len(),
                forall|k: int| 0 <= k < acc@.len() ==> #[trigger] a0[k] == (acc@[k].0@, cv_view(acc@[k].1)),
                key_index(a0, key@) == key_index(a0.take(j as int), key@),
            ensures
                j > 0 ==> key_index(a0, key@) == Some(j - 1),
                j == 0 ==> key_index(a0, key@) is None,
            decreases j,
        {
            proof {
                assert(a0.take(j as int).drop_last() =~= a0.take(j - 1));
                assert(a0[j - 1] == (acc@[j - 1].0@, cv_view(acc@[j - 1].1)));
            }
            if text_eq(acc[j - 1].0.as_str(), key.as_str()) {
                break;
            }
            j = j - 1;
        }
        if j > 0 {
            let ghost b0 = acc@;
            acc.set(j - 1, (key.clone(), v));
            proof {
                lemma_cps_view(acc@);
                assert(cps_view(acc@) =~= a0.update(j - 1, (key@, config_value_of(cfg@[i as int].1@))));
            }
        } else {
            acc.push((key.clone(), v));
            proof {
                lemma_cps_view(acc@);
                assert(cps_view(acc@) =~= a0.push((key@, config_value_of(cfg@[i as int].1@))));
            }
        }
        i = i + 1;
    }
    assert(cv.take(cv.len() as int) =~= cv);
    acc
}

fn skill_config(s: &SkillDecl) -> (r: SkillConfig)
    ensures
        r@ == skill_config_of(s@),
{
    proof {
        reveal_strlit("timeout");
        reveal_strlit("retry");
    }
    let timeout = setting_int(&s.config, "timeout");
    let retry = setting_int(&s.config, "retry");
    SkillConfig {
        name: s.name.clone(),
        handler_type: handler(&s.handler),
        timeout_ms: match timeout {
            Some(i) => Some(i as u64),
            None => None,
        },
        retry_count: match retry {
            Some(i) => Some(i as u32),
            None => None,
        },
        config: collect_config(&s.config),
    }
}

fn trigger_config(t: &TriggerDecl) -> (r: TriggerConfig)
    ensures
        r@ == trigger_config_of(t@),
{
    TriggerConfig {
        event: t.event.clone(),
        guard: match &t.guard {
            Some(g) => Some(g.debug_text()),
            None => None,
        },
        action_type: action(&t.action),
    }
}

fn agent_config(a: &AgentDecl) -> (r: AgentConfig)
    ensures
        r@ == agent_config_of(a@),
{
    let mut skills: Vec<SkillConfig> = Vec::new();
    let mut i: usize = 0;
    while i < a.skills.len()
        invariant
            0 <= i <= a.skills@.len(),
            skills@.len() == i,
            forall|k: int| 0 <= k < i ==> (#[trigger] skills@[k])@ == skill_config_of(a.skills@[k]@),
        decreases a.skills@.len() - i,
    {
        skills.push(skill_config(&a.skills[i]));
        i = i + 1;
    }
    let mut triggers: Vec<TriggerConfig> = Vec::new();
    let mut i: usize = 0;
    while i < a.triggers.len()
        invariant
            0 <= i <= a.triggers@.len(),
            triggers@.len() == i,
            forall|k: int| 0 <= k < i ==> (#[trigger] triggers@[k])@ == trigger_config_of(a.triggers@[k]@),
        decreases a.triggers@.len() - i,
    {
        triggers.push(trigger_config(&a.triggers[i]));
        i = i + 1;
    }
    let r = AgentConfig { name: a.name.clone(), skills, triggers, config: collect_config(&a.config) };
    assert(r@.skills =~= agent_config_of(a@).skills);
    assert(r@.triggers =~= agent_config_of(a@).triggers);
    r
}

/// The first agent declaration of a program.
fn find_agent(program: &Program) -> (r: Option<&AgentDecl>)
    ensures
        match r {
            Some(a) => first_agent(program@) == Some(a@),
            None => first_agent(program@) is None,
        },
{
    let ghost items = program@;
    let mut i: usize = 0;
    assert(items.skip(0) =~= items);
    while i < program.items.len()
        invariant
            0 <= i <= program.items@.len(),
            items == program@,
            first_agent(items) == first_agent(items.skip(i as int)),
        decreases program.items@.len() - i,
    {
        assert(items.skip(i as int).drop_first() =~= items.skip(i + 1));
        assert(items.skip(i as int)[0] == program.items@[i as int]@);
        match &program.items[i] {
            Item::Agent(a) => {
                return Some(a);
            },
            _ => {},
        }
        i = i + 1;
    }
    None
}

/// Compile an agent DSL source into AgentConfig.
pub fn compile_agent(source: &str) -> (r: Result<AgentConfig, Vec<String>>)
    requires
        source_fits(source@),
    ensures
        agent_result_view(r) == compile_agent_spec(source@),
{
    proof {
        lemma_tokenize_spans(source@);
        reveal_strlit("no agent declaration found");
        reveal_strlit("lexer error: ");
    }
    match tokenize(source) {
        Err(errs) => {
            let mut out: Vec<String> = Vec::new();
            let mut i: usize = 0;
            while i < errs.len()
                invariant
                    0 <= i <= errs@.len(),
                    out@.len() == i,
                    forall|k: int| 0 <= k < i ==> (#[trigger] out@[k])@ == "lexer error: "@ + LexerError::text_spec(errs@[k]@),
                decreases errs@.len() - i,
            {
                let t = errs[i].text();
                let mut s = String::from_str("lexer error: ");
                s.append(t.as_str());
                out.push(s);
                i = i + 1;
            }
            proof {
                let es = lex_result_view(Err::<Vec<crate::lexer::Token>, Vec<LexerError>>(errs))->Err_0;
                assert(strings_view(out@) =~= Seq::new(es.len(), |k: int| "lexer error: "@ + LexerError::text_spec(es[k])));
            }
            Err(out)
        },
        Ok(tokens) => {
            let mut parser = Parser::new(tokens);
            match parser.parse_program() {
                Err(e) => {
                    let v = vec![e.text()];
                    assert(strings_view(v@) =~= seq![ParseError::text_spec(e@)]);
                    Err(v)
                },
                Ok(program) => match find_agent(&program) {
                    Some(a) => Ok(agent_config(a)),
                    None => {
                        let v = vec![String::from_str("no agent declaration found")];
                        assert(strings_view(v@) =~= seq!["no agent declaration found"@]);
                        Err(v)
                    },
                },
            }
        },
    }
}

// ---- Looking up settings and rendering values ----

/// The value of setting `key`: the last entry with that key.
pub fn config_get<'a>(entries: &'a Vec<(String, ConfigValue)>, key: &str) -> (r: Option<&'a ConfigValue>)
    ensures
        r == (match key_index(cps_view(entries@), key@) {
            Some(j) => Some(&entries@[j].1),
            None => None,
        }),
{
    let ghost a0 = cps_view(entries@);
    proof {
        lemma_cps_view(entries@);
    }
    let mut j: usize = entries.len();
    assert(a0.take(a0.len() as int) =~= a0);
    while j > 0
        invariant
            0 <= j <= entries@.len(),
            a0 == cps_view(entries@),
            a0.len() == entries@.len(),
            forall|k: int| 0 <= k < entries@.len() ==> #[trigger] a0[k] == (entries@[k].0@, cv_view(entries@[k].1)),
            key_index(a0, key@) == key_index(a0.take(j as int), key@),
        decreases j,
    {
        assert(a0.take(j as int).drop_last() =~= a0.take(j - 1));
        assert(a0[j - 1].0 == entries@[j - 1].0@);
        if text_eq(entries[j - 1].0.as_str(), key) {
            return Some(&entries[j - 1].1);
        }
        j = j - 1;
    }
    assert(a0.take(0) =~= Seq::<(Seq<char>, ConfigValueView)>::empty());
    None
}

/// The text of a value: strings in double quotes, arrays in brackets, objects in braces,
/// entries separated by `, `; a float as its rendering among `renders`.
pub open spec fn cv_text(v: ConfigValueView, renders: Seq<(Seq<char>, Seq<char>)>) -> Seq<char>
    decreases v,
{
    match v {
        ConfigValueView::Int(i) => crate::text::int_decimal(i as int),
        ConfigValueView::Float(t) => float_render(renders, t),
        ConfigValueView::String(s) => "\""@ + s + "\""@,
        ConfigValueView::Bool(b) => if b {
            "true"@
        } else {
            "false"@
        },
        ConfigValueView::Null => "null"@,
        ConfigValueView::Array(vs) => "["@ + cvs_text(vs, renders) + "]"@,
        ConfigValueView::Object(ps) => "{ "@ + cps_text(ps, renders) + " }"@,
    }
}

pub open spec fn cvs_text(vs: Seq<ConfigValueView>, renders: Seq<(Seq<char>, Seq<char>)>) -> Seq<char>
    decreases vs,
{
    if vs.len() == 0 {
        Seq::empty()
    } else if vs.len() == 1 {
        cv_text(vs[0], renders)
    } else {
        cv_text(vs[0], renders) + ", "@ + cvs_text(vs.subrange(1, vs.len() as int), renders)
    }
}

pub open spec fn cps_text(ps: Seq<(Seq<char>, ConfigValueView)>, renders: Seq<(Seq<char>, Seq<char>)>) -> Seq<char>
    decreases ps,
{
    if ps.len() == 0 {
        Seq::empty()
    } else if ps.len() == 1 {
        ps[0].0 + ": "@ + cv_text(ps[0].1, renders)
    } else {
        ps[0].0 + ": "@ + cv_text(ps[0].1, renders) + ", "@ + cps_text(ps.subrange(1, ps.len() as int), renders)
    }
}

proof fn lemma_cvs_text_push(vs: Seq<ConfigValueView>, x: ConfigValueView, renders: Seq<(Seq<char>, Seq<char>)>)
    ensures
        cvs_text(vs.push(x), renders) == if vs.len() == 0 {
            cv_text(x, renders)
        } else {
            cvs_text(vs, renders) + ", "@ + cv_text(x, renders)
        },
    decreases vs.len(),
{
    if vs.len() > 0 {
        let t = vs.subrange(1, vs.len() as int);
        assert(vs.push(x).subrange(1, vs.len() as int + 1) =~= t.push(x));
        lemma_cvs_text_push(t, x, renders);
        if vs.len() == 1 {
            assert(t =~= Seq::<ConfigValueView>::empty());
            assert(t.push(x) =~= seq![x]);
        }
    }
}

proof fn lemma_cps_text_push(
    ps: Seq<(Seq<char>, ConfigValueView)>,
    x: (Seq<char>, ConfigValueView),
    renders: Seq<(Seq<char>, Seq<char>)>,
)
    ensures
        cps_text(ps.push(x), renders) == if ps.len() == 0 {
            x.0 + ": "@ + cv_text(x.1, renders)
        } else {
            cps_text(ps, renders) + ", "@ + x.0 + ": "@ + cv_text(x.1, renders)
        },
    decreases ps.len(),
{
    if ps.len() > 0 {
        let t = ps.subrange(1, ps.len() as int);
        assert(ps.push(x).subrange(1, ps.len() as int + 1) =~= t.push(x));
        lemma_cps_text_push(t, x, renders);
        if ps.len() == 1 {
            assert(t =~= Seq::<(Seq<char>, ConfigValueView)>::empty());
            assert(t.push(x) =~= seq![x]);
        }
    }
}

impl ConfigValue {
    /// The text of the value; a float as its rendering among `renders` (pairs of a
    /// float's text and how it is written).
    #[verifier::loop_isolation(false)]
    pub fn to_string_with(&self, renders: &Vec<(String, String)>) -> (r: String)
        ensures
            r@ == cv_text(self@, crate::ssa_text::renders_view(renders@)),
        decreases self,
    {
        let ghost rv = crate::ssa_text::renders_view(renders@);
        match self {
            ConfigValue::Int(i) => i64_text(*i),
            ConfigValue::Float(t) => crate::ssa_text::float_text(renders, t),
            ConfigValue::String(t) => {
                let mut s = String::from_str("\"");
                s.append(t.as_str());
                s.append("\"");
                s
            },
            ConfigValue::Bool(b) => if *b {
                String::from_str("true")
            } else {
                String::from_str("false")
            },
            ConfigValue::Null => String::from_str("null"),
            ConfigValue::Array(vs) => {
                proof {
                    lemma_cvs_view(vs@);
                }
                let ghost vv = cvs_view(vs@);
                let mut s = String::new();
                let mut i: usize = 0;
                assert(vv.take(0) =~= Seq::<ConfigValueView>::empty());
                while i < vs.len()
                    invariant
                        0 <= i <= vs@.len(),
                        s@ == cvs_text(vv.take(i as int), rv),
                    decreases vs@.len() - i,
                {
                    let t = vs[i].to_string_with(renders);
                    proof {
                        assert(vv.take(i + 1) =~= vv.take(i as int).push(vv[i as int]));
                        lemma_cvs_text_push(vv.take(i as int), vv[i as int], rv);
                    }
                    if i > 0 {
                        s.append(", ");
                    }
                    s.append(t.as_str());
                    i = i + 1;
                }
                assert(vv.take(vv.len() as int) =~= vv);
                let mut r = String::from_str("[");
                r.append(s.as_str());
                r.append("]");
                r
            },
            ConfigValue::Object(ps) => {
                proof {
                    lemma_cps_view(ps@);
                }
                let ghost pv = cps_view(ps@);
                let mut s = String::new();
                let mut i: usize = 0;
                assert(pv.take(0) =~= Seq::<(Seq<char>, ConfigValueView)>::empty());
                while i < ps.len()
                    invariant
                        0 <= i <= ps@.len(),
                        s@ == cps_text(pv.take(i as int), rv),
                    decreases ps@.len() - i,
                {
                    let t = ps[i].1.to_string_with(renders);
                    proof {
                        assert(pv.take(i + 1) =~= pv.take(i as int).push(pv[i as int]));
                        lemma_cps_text_push(pv.take(i as int), pv[i as int], rv);
                    }
                    if i > 0 {
                        s.append(", ");
                    }
                    s.append(ps[i].0.as_str());
                    s.append(": ");
                    s.append(t.as_str());
                    i = i + 1;
                }
                assert(pv.take(pv.len() as int) =~= pv);
                let mut r = String::from_str("{ ");
                r.append(s.as_str());
                r.append(" }");
                r
            },
        }
    }

    /// The text of the value, a float as the text it holds.
    pub fn to_string(&self) -> (r: String)
        ensures
            r@ == cv_text(self@, Seq::empty()),
    {
        let renders: Vec<(String, String)> = Vec::new();
        assert(crate::ssa_text::renders_view(renders@) =~= Seq::empty());
        self.to_string_with(&renders)
    }
}

// ---- Compiling to IR ----

/// The state of a fresh IR generator.
pub open spec fn start_gen() -> GenState {
    GenState { functions: Seq::empty(), current: None, locals: Map::empty(), labels: 0 }
}

/// Compiling an agent source to IR: lexer errors' texts; a parse error's text; the
/// functions generated; or, each as `IR error: ` and its message, the generator's errors.
pub open spec fn compile_ir_spec(src: Seq<char>) -> Result<Seq<FuncView>, Seq<Seq<char>>> {
    match tokenize_spec(src) {
        Err(errs) => Err(Seq::new(errs.len(), |i: int| LexerError::text_spec(errs[i]))),
        Ok(toks) => match sp_program(toks, 0, Seq::empty()).0 {
            Err(e) => Err(seq![ParseError::text_spec(e)]),
            Ok(items) => match generate_spec(start_gen(), items).0 {
                Ok(fs) => Ok(fs),
                Err(errs) => Err(Seq::new(errs.len(), |i: int| "IR error: "@ + errs[i].message)),
            },
        },
    }
}

/// The items' size, counted up to the bound.
fn items_size_capped(items: &Vec<Item>) -> (r: usize)
    ensures
        r == capped(items_size(Seq::new(items@.len(), |i: int| items@[i]@))),
{
    let ghost iv = Seq::new(items@.len(), |i: int| items@[i]@);
    assert(iv.subrange(0, iv.len() as int) =~= iv);
    let mut acc: usize = 0;
    let mut i: usize = 0;
    while i < items.len()
        invariant
            0 <= i <= items@.len(),
            iv == Seq::new(items@.len(), |i: int| items@[i]@),
            acc <= size_cap(),
            capped(items_size(iv)) == capped(acc as nat + items_size(iv.subrange(i as int, iv.len() as int))),
        decreases items@.len() - i,
    {
        let c = match &items[i] {
            Item::Function(s) => add_capped(1, stmt_size_capped(s)),
            Item::Struct(s) => add_capped(1, stmt_size_capped(s)),
            Item::Expr(e) => add_capped(1, expr_size_capped(e)),
            Item::Agent(_) => 1,
        };
        proof {
            lemma_items_size_step(iv, i as int);
            let x = item_size(iv[i as int]);
            match iv[i as int] {
                ItemView::Function(s) => lemma_capped_sum(1, stmt_size(s)),
                ItemView::Struct(s) => lemma_capped_sum(1, stmt_size(s)),
                ItemView::Expr(e) => lemma_capped_sum(1, expr_size(e)),
                ItemView::Agent(_) => {},
            }
            assert(c == capped(x));
            let rest = items_size(iv.subrange(i + 1, iv.len() as int));
            lemma_capped_sum(acc as nat + x, rest);
            lemma_capped_sum(acc as nat, x);
            assert(acc + (x + rest) == (acc + x) + rest);
        }
        acc = add_capped(acc, c);
        i = i + 1;
    }
    assert(iv.subrange(iv.len() as int, iv.len() as int) =~= Seq::<ItemView>::empty());
    acc
}

/// Whether there is room to generate the IR of what the source parses to (`ir_fits`),
/// which `compile_agent_ir` and `compile_and_optimize` ask of their source.
pub fn ir_room(source: &str) -> (r: bool)
    requires
        source_fits(source@),
    ensures
        r == ir_fits(source@),
{
    match tokenize(source) {
        Err(_) => true,
        Ok(tokens) => {
            proof {
                lemma_tokenize_spans(source@);
            }
            let mut parser = Parser::new(tokens);
            match parser.parse_program() {
                Err(_) => true,
                Ok(program) => {
                    let n = items_size_capped(&program.items);
                    assert(program@ =~= Seq::new(program.items@.len(), |i: int| program.items@[i]@));
                    n <= (usize::MAX - 2) / 3
                },
            }
        },
    }
}

/// Room to generate the IR of what the source parses to.
pub open spec fn ir_fits(src: Seq<char>) -> bool {
    match tokenize_spec(src) {
        Ok(toks) => match sp_program(toks, 0, Seq::empty()).0 {
            Ok(items) => gen_fits(start_gen(), items_size(items)),
            Err(_) => true,
        },
        Err(_) => true,
    }
}

pub open spec fn ir_result_view(r: Result<Vec<SsaFunction>, Vec<String>>) -> Result<Seq<FuncView>, Seq<Seq<char>>> {
    match r {
        Ok(v) => Ok(funcs_view(v@)),
        Err(es) => Err(strings_view(es@)),
    }
}

/// Compile an agent DSL source into SSA IR.
pub fn compile_agent_ir(source: &str) -> (r: Result<Vec<SsaFunction>, Vec<String>>)
    requires
        source_fits(source@),
        ir_fits(source@),
    ensures
        ir_result_view(r) == compile_ir_spec(source@),
{
    proof {
        lemma_tokenize_spans(source@);
        reveal_strlit("IR error: ");
    }
    match tokenize(source) {
        Err(errs) => {
            let mut out: Vec<String> = Vec::new();
            let mut i: usize = 0;
            while i < errs.len()
                invariant
                    0 <= i <= errs@.len(),
                    out@.len() == i,
                    forall|k: int| 0 <= k < i ==> (#[trigger] out@[k])@ == LexerError::text_spec(errs@[k]@),
                decreases errs@.len() - i,
            {
                out.push(errs[i].text());
                i = i + 1;
            }
            proof {
                let es = lex_result_view(Err::<Vec<crate::lexer::Token>, Vec<LexerError>>(errs))->Err_0;
                assert(strings_view(out@) =~= Seq::new(es.len(), |k: int| LexerError::text_spec(es[k])));
            }
            Err(out)
        },
        Ok(tokens) => {
            let mut parser = Parser::new(tokens);
            match parser.parse_program() {
                Err(e) => {
                    let v = vec![e.text()];
                    assert(strings_view(v@) =~= seq![ParseError::text_spec(e@)]);
                    Err(v)
                },
                Ok(program) => {
                    let mut generator = IrGenerator::new();
                    match generator.generate(&program) {
                        Ok(fs) => Ok(fs),
                        Err(errs) => {
                            let mut out: Vec<String> = Vec::new();
                            let mut i: usize = 0;
                            while i < errs.len()
                                invariant
                                    0 <= i <= errs@.len(),
                                    out@.len() == i,
                                    forall|k: int| 0 <= k < i ==> (#[trigger] out@[k])@ == "IR error: "@ + errs@[k].message@,
                                decreases errs@.len() - i,
                            {
                                let mut t = String::from_str("IR error: ");
                                t.append(errs[i].message.as_str());
                                out.push(t);
                                i = i + 1;
                            }
                            proof {
                                let es = errors_view(errs@);
                                assert(strings_view(out@) =~= Seq::new(es.len(), |k: int| "IR error: "@ + es[k].message));
                            }
                            Err(out)
                        },
                    }
                },
            }
        },
    }
}

/// `new` is `old` optimized: constants folded (floats through `float_fold`), then the dead
/// code of the result removed.
pub open spec fn optimized<F: Fn(FloatOp, &String, &String) -> Option<String>>(f: F, old: FuncView, new: FuncView) -> bool {
    exists|mid: FuncView, count: nat| #[trigger] folded(f, old, mid, count) && new == eliminate_dead(mid)
}

/// Compile and optimize agent DSL: the agent's configuration, and its IR with each
/// function optimized.
pub fn compile_and_optimize<F: Fn(FloatOp, &String, &String) -> Option<String>>(source: &str, float_fold: &F) -> (r: Result<(AgentConfig, Vec<SsaFunction>), Vec<String>>)
    requires
        source_fits(source@),
        ir_fits(source@),
        forall|o: FloatOp, x: &String, y: &String| call_requires(*float_fold, (o, x, y)),
        compile_ir_spec(source@) matches Ok(fs) ==> forall|i: int|
            0 <= i < fs.len() ==> total_instrs(#[trigger] fs[i]) <= usize::MAX && fold_fits(*float_fold, fs[i]),
    ensures
        match compile_agent_spec(source@) {
            Err(es) => r matches Err(e) && strings_view(e@) == es,
            Ok(c) => match compile_ir_spec(source@) {
                Err(es) => r matches Err(e) && strings_view(e@) == es,
                Ok(fs) => r matches Ok((config, funcs)) && config@ == c && funcs@.len() == fs.len() && forall|i: int|
                    0 <= i < fs.len() ==> optimized(*float_fold, fs[i], #[trigger] funcs@[i]@),
            },
        },
{
    let config = match compile_agent(source) {
        Ok(c) => c,
        Err(e) => return Err(e),
    };
    let mut funcs = match compile_agent_ir(source) {
        Ok(fs) => fs,
        Err(e) => return Err(e),
    };
    let ghost fs = funcs_view(funcs@);
    proof {
        assert(compile_ir_spec(source@) == Ok::<Seq<FuncView>, Seq<Seq<char>>>(fs));
        assert forall|k: int| 0 <= k < fs.len() implies total_instrs(#[trigger] fs[k]) <= usize::MAX && fold_fits(
            *float_fold,
            fs[k],
        ) by {
            if let Ok(gs) = compile_ir_spec(source@) {
                assert(gs == fs);
                assert(total_instrs(gs[k]) <= usize::MAX);
            }
        }
    }
    let mut i: usize = 0;
    while i < funcs.len()
        invariant
            0 <= i <= funcs@.len(),
            fs.len() == funcs@.len(),
            forall|o: FloatOp, x: &String, y: &String| call_requires(*float_fold, (o, x, y)),
            forall|k: int| 0 <= k < fs.len() ==> total_instrs(#[trigger] fs[k]) <= usize::MAX && fold_fits(*float_fold, fs[k]),
            forall|k: int| 0 <= k < i ==> optimized(*float_fold, fs[k], #[trigger] funcs@[k]@),
            forall|k: int| i <= k < fs.len() ==> #[trigger] funcs@[k]@ == fs[k],
        decreases funcs@.len() - i,
    {
        let mut f = funcs.remove(i);
        assert(f@ == fs[i as int]);
        let res = optimize(&mut f, float_fold);
        funcs.insert(i, f);
        i = i + 1;
    }
    Ok((config, funcs))
}

/// Folding one of the functions meets an integer operation whose result does not fit in
/// `i64`, or one of them has more instructions than `usize` counts.
pub open spec fn some_fold_overflows<F: Fn(FloatOp, &String, &String) -> Option<String>>(f: F, fs: Seq<FuncView>) -> bool {
    exists|i: int| 0 <= i < fs.len() && (total_instrs(#[trigger] fs[i]) > usize::MAX || !fold_fits(f, fs[i]))
}

/// `compile_and_optimize` without asking that folding fit: where folding one of the
/// functions would meet an integer operation whose result does not fit in `i64` (or its
/// number of instructions does not fit in `usize`), nothing.
pub fn try_compile_and_optimize<F: Fn(FloatOp, &String, &String) -> Option<String>>(source: &str, float_fold: &F) -> (r: Option<Result<(AgentConfig, Vec<SsaFunction>), Vec<String>>>)
    requires
        source_fits(source@),
        ir_fits(source@),
        forall|o: FloatOp, x: &String, y: &String| call_requires(*float_fold, (o, x, y)),
    ensures
        r matches Some(res) ==> match compile_agent_spec(source@) {
            Err(es) => res matches Err(e) && strings_view(e@) == es,
            Ok(c) => match compile_ir_spec(source@) {
                Err(es) => res matches Err(e) && strings_view(e@) == es,
                Ok(fs) => res matches Ok((config, funcs)) && config@ == c && funcs@.len() == fs.len() && forall|i: int|
                    0 <= i < fs.len() ==> optimized(*float_fold, fs[i], #[trigger] funcs@[i]@),
            },
        },
        r is None ==> compile_agent_spec(source@) is Ok && compile_ir_spec(source@) is Ok,
        r is None ==> (compile_ir_spec(source@) matches Ok(fs) ==> some_fold_overflows(*float_fold, fs)),
{
    let config = match compile_agent(source) {
        Ok(c) => c,
        Err(e) => return Some(Err(e)),
    };
    let mut funcs = match compile_agent_ir(source) {
        Ok(fs) => fs,
        Err(e) => return Some(Err(e)),
    };
    let ghost fs = funcs_view(funcs@);
    assert(compile_ir_spec(source@) == Ok::<Seq<FuncView>, Seq<Seq<char>>>(fs));
    let mut overflow = false;
    let mut i: usize = 0;
    while i < funcs.len() && !overflow
        invariant
            0 <= i <= funcs@.len(),
            fs.len() == funcs@.len(),
            forall|o: FloatOp, x: &String, y: &String| call_requires(*float_fold, (o, x, y)),
            forall|k: int| 0 <= k < i ==> optimized(*float_fold, fs[k], #[trigger] funcs@[k]@),
            forall|k: int| i <= k < fs.len() ==> #[trigger] funcs@[k]@ == fs[k],
            overflow ==> i < fs.len() && (total_instrs(fs[i as int]) > usize::MAX || !fold_fits(*float_fold, fs[i as int])),
        decreases funcs@.len() - i, if overflow { 0int } else { 1int },
    {
        let mut f = funcs.remove(i);
        assert(f@ == fs[i as int]);
        match try_optimize(&mut f, float_fold) {
            Some(res) => {
                funcs.insert(i, f);
                i = i + 1;
            },
            None => {
                funcs.insert(i, f);
                overflow = true;
            },
        }
    }
    if overflow {
        proof {
            assert(agent_result_view(Ok::<AgentConfig, Vec<String>>(config)) == compile_agent_spec(source@));
            assert(total_instrs(fs[i as int]) > usize::MAX || !fold_fits(*float_fold, fs[i as int]));
            assert(some_fold_overflows(*float_fold, fs));
        }
        return None;
    }
    Some(Ok((config, funcs)))
}

} // verus!
