//! Running a workflow: the context nodes share, and the decisions the engine makes
//! between running nodes (what a node's result means for the run, which branch a
//! condition takes, where a file transfer goes, and what an action reports).

use vstd::prelude::*;
use crate::automation::{
    first_node_with_id, first_trigger, picked, same_connection, same_connections, Connection,
    ExecutionStatus, Node, NodeConfig, NodeResult, NodeType, TransferDirection, Workflow,
    WorkflowError,
};
use crate::expression::{
    captures_from, check_views, close_after, comparison_meaning, comparison_of, find_placeholders,
    pair_views, seq_views, split_char, split_from, split_on, Comparison, NumericOp,
};
use crate::ssh_exec::{parse_u64, read_u64};
use crate::strmap::StrMap;
use crate::sys::now_millis;
use crate::tailscale::{lowercase, to_lowercase};
use crate::text::{chars_contain, chars_eq, concat, contains_seq, owned, str_chars, str_eq, string_from_chars, trim, trim_chars};

verus! {

/// What the nodes of one run share: variables by name and results by node id.
pub struct ExecutionContext {
    variables: StrMap<String>,
    results: StrMap<NodeResult>,
    env: StrMap<String>,
    workflow_id: String,
    execution_id: String,
    /// How the run was started, `manual` unless set otherwise.
    execution_mode: String,
    /// Milliseconds since the Unix epoch.
    started_at: i64,
}

/// The map a list of pairs gives when they are inserted in order (a later pair wins).
pub open spec fn pairs_map(pairs: Seq<(String, String)>) -> Map<Seq<char>, String>
    decreases pairs.len(),
{
    if pairs.len() == 0 {
        Map::empty()
    } else {
        pairs_map(pairs.drop_last()).insert(pairs.last().0@, pairs.last().1)
    }
}

/// The text `m` holds under `k`, or the empty text.
pub open spec fn lookup_text(m: Map<Seq<char>, String>, k: Seq<char>) -> Seq<char> {
    if m.contains_key(k) {
        m[k]@
    } else {
        seq![]
    }
}

/// The output a node succeeded with, if any.
pub open spec fn node_output(results: Map<Seq<char>, NodeResult>, id: Seq<char>) -> Option<Seq<char>> {
    if results.contains_key(id) {
        match results[id] {
            NodeResult::Success { output: Some(o) } => Some(o@),
            _ => None,
        }
    } else {
        None
    }
}

/// `text` after each replacement of `reps` in turn: every occurrence of the first
/// component replaced by the second.
pub open spec fn substitute(text: Seq<char>, reps: Seq<(Seq<char>, Seq<char>)>) -> Seq<char>
    decreases reps.len(),
{
    if reps.len() == 0 {
        text
    } else {
        replace_from(substitute(text, reps.drop_last()), reps.last().0, reps.last().1, 0)
    }
}

/// What a condition's expanded text means: `true`, `1` or `yes` (trimmed, in any case)
/// hold; `false`, `0`, `no` or nothing fail; anything else is read as a comparison.
pub open spec fn condition_meaning(expanded: Seq<char>) -> Result<bool, Seq<(NumericOp, Seq<char>, Seq<char>)>> {
    let key = lowercase(trim(expanded));
    if key == "true"@ || key == "1"@ || key == "yes"@ {
        Ok(true)
    } else if key == "false"@ || key == "0"@ || key == "no"@ || key.len() == 0 {
        Ok(false)
    } else {
        comparison_meaning(expanded)
    }
}

/// A condition whose expanded text, trimmed and lowercased, is `true`, `1` or `yes` holds,
/// and one that is `false`, `0`, `no` or empty fails, whatever comparison the text might
/// also read as: the keywords decide before any comparison is looked at.
pub proof fn law_condition_keywords_decide(expanded: Seq<char>)
    ensures
        lowercase(trim(expanded)) == "true"@ ==> condition_meaning(expanded) == Ok::<bool, Seq<(NumericOp, Seq<char>, Seq<char>)>>(true),
        lowercase(trim(expanded)) == "1"@ ==> condition_meaning(expanded) == Ok::<bool, Seq<(NumericOp, Seq<char>, Seq<char>)>>(true),
        lowercase(trim(expanded)) == "yes"@ ==> condition_meaning(expanded) == Ok::<bool, Seq<(NumericOp, Seq<char>, Seq<char>)>>(true),
        lowercase(trim(expanded)) == "false"@ ==> condition_meaning(expanded) == Ok::<bool, Seq<(NumericOp, Seq<char>, Seq<char>)>>(false),
        lowercase(trim(expanded)) == "0"@ ==> condition_meaning(expanded) == Ok::<bool, Seq<(NumericOp, Seq<char>, Seq<char>)>>(false),
        lowercase(trim(expanded)) == "no"@ ==> condition_meaning(expanded) == Ok::<bool, Seq<(NumericOp, Seq<char>, Seq<char>)>>(false),
        lowercase(trim(expanded)).len() == 0 ==> condition_meaning(expanded) == Ok::<bool, Seq<(NumericOp, Seq<char>, Seq<char>)>>(false),
{
    reveal_strlit("true");
    reveal_strlit("1");
    reveal_strlit("yes");
    reveal_strlit("false");
    reveal_strlit("0");
    reveal_strlit("no");
    assert("true"@.len() == 4 && "1"@.len() == 1 && "yes"@.len() == 3);
    assert("false"@.len() == 5 && "0"@.len() == 1 && "no"@.len() == 2);
    assert("0"@[0] != "1"@[0]);
    if lowercase(trim(expanded)) == "0"@ {
        assert(lowercase(trim(expanded)) != "1"@);
    }
}

proof fn lemma_close_at(s: Seq<char>, j: int, k: int)
    requires
        0 <= j <= k < s.len(),
        s[k] == '}',
        forall|t: int| j <= t < k ==> s[t] != '}',
    ensures
        close_after(s, j) == k,
    decreases k - j,
{
    if j < k {
        lemma_close_at(s, j + 1, k);
    }
}

proof fn lemma_split_none(s: Seq<char>, c: char, i: int, start: int)
    requires
        0 <= start <= i <= s.len(),
        forall|t: int| i <= t < s.len() ==> s[t] != c,
    ensures
        split_from(s, c, i, start) == seq![s.subrange(start, s.len() as int)],
    decreases s.len() - i,
{
    if i < s.len() {
        lemma_split_none(s, c, i + 1, start);
    }
}

/// A condition (or any expression) that is a single placeholder `${name}` of a variable
/// name (no `.`, no `}`) comes to that variable's value, or to nothing when it is unset:
/// `${flag}` with `flag` set to `true` is the text `true`, which holds.
pub proof fn law_lone_variable_expands_to_its_value(ctx: ExecutionContext, name: Seq<char>)
    requires
        name.len() > 0,
        !name.contains('}'),
        !name.contains('.'),
    ensures
        ctx.expression_value(seq!['$', '{'] + name + seq!['}']) == lookup_text(ctx.variables(), name),
        lowercase(trim(lookup_text(ctx.variables(), name))) == "true"@ ==> condition_meaning(
            ctx.expression_value(seq!['$', '{'] + name + seq!['}']),
        ) == Ok::<bool, Seq<(NumericOp, Seq<char>, Seq<char>)>>(true),
{
    let e = seq!['$', '{'] + name + seq!['}'];
    let k = e.len() - 1;
    assert(e[k] == '}');
    assert forall|t: int| 2 <= t < k implies e[t] != '}' by {
        assert(e[t] == name[t - 2]);
        if e[t] == '}' {
            assert(name.contains('}'));
        }
    }
    lemma_close_at(e, 2, k);
    assert(e.subrange(0, k + 1) =~= e);
    assert(e.subrange(2, k) =~= name);
    assert(captures_from(e, k + 1) == Seq::<(Seq<char>, Seq<char>)>::empty());
    assert(captures_from(e, 0) =~= seq![(e, name)]);
    lemma_split_none(name, '.', 0, 0);
    assert(name.subrange(0, name.len() as int) =~= name);
    assert(split_on(name, '.') == seq![name]);
    let v = ctx.resolve(name);
    assert(v == lookup_text(ctx.variables(), name));
    let reps = Seq::new(1, |j: int| (e, v));
    assert(Seq::new(captures_from(e, 0).len(), |j: int| (captures_from(e, 0)[j].0, ctx.resolve(captures_from(e, 0)[j].1))) =~= reps);
    assert(reps.drop_last() =~= Seq::<(Seq<char>, Seq<char>)>::empty());
    assert(substitute(e, reps.drop_last()) == e);
    assert(e.subrange(0, e.len() as int) =~= e);
    assert(replace_from(e, e, v, e.len() as int) =~= Seq::<char>::empty());
    assert(replace_from(e, e, v, 0) =~= v);
    law_condition_keywords_decide(v);
}

proof fn lemma_captures_nonempty(s: Seq<char>, i: int)
    ensures
        forall|k: int| 0 <= k < captures_from(s, i).len() ==> (#[trigger] captures_from(s, i)[k]).0.len() > 0,
    decreases s.len() - i,
{
    if i < 0 || i + 1 >= s.len() {
    } else if s[i] == '$' && s[i + 1] == '{' && i + 2 < close_after(s, i + 2) < s.len() {
        let c = close_after(s, i + 2);
        lemma_captures_nonempty(s, c + 1);
        let head = seq![(s.subrange(i, c + 1), s.subrange(i + 2, c))];
        assert(captures_from(s, i) == head + captures_from(s, c + 1));
        assert forall|k: int| 0 <= k < captures_from(s, i).len() implies (#[trigger] captures_from(s, i)[k]).0.len() > 0 by {
            if k > 0 {
                assert(captures_from(s, i)[k] == captures_from(s, c + 1)[k - 1]);
            } else {
                assert(captures_from(s, i)[0] == head[0]);
            }
        }
    } else {
        lemma_captures_nonempty(s, i + 1);
        assert(captures_from(s, i) == captures_from(s, i + 1));
    }
}

impl ExecutionContext {
    pub closed spec fn variables(&self) -> Map<Seq<char>, String> {
        self.variables@
    }

    pub closed spec fn results(&self) -> Map<Seq<char>, NodeResult> {
        self.results@
    }

    pub closed spec fn env(&self) -> Map<Seq<char>, String> {
        self.env@
    }

    /// The workflow, run id and mode of the run, as text.
    pub closed spec fn run_ids(&self) -> (Seq<char>, Seq<char>, Seq<char>) {
        (self.workflow_id@, self.execution_id@, self.execution_mode@)
    }

    pub closed spec fn wf(&self) -> bool {
        self.variables.wf() && self.results.wf() && self.env.wf()
    }

    pub fn new() -> (r: Self)
        ensures
            r.wf(),
            r.variables() == Map::<Seq<char>, String>::empty(),
            r.results() == Map::<Seq<char>, NodeResult>::empty(),
            r.env() == Map::<Seq<char>, String>::empty(),
            r.run_ids() == (Seq::<char>::empty(), Seq::<char>::empty(), "manual"@),
    {
        ExecutionContext {
            variables: StrMap::new(),
            results: StrMap::new(),
            env: StrMap::new(),
            workflow_id: String::new(),
            execution_id: String::new(),
            execution_mode: owned("manual"),
            started_at: now_millis(),
        }
    }

    /// The context of run `execution_id` of workflow `workflow_id`, started now in manual
    /// mode, with no variables or results and the environment `env` (name, value pairs,
    /// a later pair winning).
    pub fn for_run(workflow_id: String, execution_id: String, env: Vec<(String, String)>) -> (r: Self)
        ensures
            r.wf(),
            r.variables() == Map::<Seq<char>, String>::empty(),
            r.results() == Map::<Seq<char>, NodeResult>::empty(),
            r.env() == pairs_map(env@),
            r.run_ids() == (workflow_id@, execution_id@, "manual"@),
    {
        let mut vars: StrMap<String> = StrMap::new();
        let mut i: usize = 0;
        while i < env.len()
            invariant
                i <= env@.len(),
                vars.wf(),
                vars@ == pairs_map(env@.subrange(0, i as int)),
            decreases env@.len() - i,
        {
            let (k, v) = &env[i];
            vars.insert(k.as_str(), v.clone());
            proof {
                let t = env@.subrange(0, i + 1);
                assert(t.drop_last() =~= env@.subrange(0, i as int));
            }
            i = i + 1;
        }
        assert(env@.subrange(0, env@.len() as int) =~= env@);
        ExecutionContext {
            variables: StrMap::new(),
            results: StrMap::new(),
            env: vars,
            workflow_id,
            execution_id,
            execution_mode: owned("manual"),
            started_at: now_millis(),
        }
    }

    pub fn set_variable(&mut self, key: &str, value: String)
        requires
            old(self).wf(),
        ensures
            final(self).wf(),
            final(self).variables() == old(self).variables().insert(key@, value),
            final(self).results() == old(self).results(),
            final(self).env() == old(self).env(),
            final(self).run_ids() == old(self).run_ids(),
    {
        self.variables.insert(key, value);
    }

    pub fn get_variable(&self, key: &str) -> (r: Option<&str>)
        requires
            self.wf(),
        ensures
            match r {
                Some(v) => self.variables().contains_key(key@) && self.variables()[key@]@ == v@,
                None => !self.variables().contains_key(key@),
            },
    {
        match self.variables.get(key) {
            Some(v) => Some(v.as_str()),
            None => None,
        }
    }

    pub fn set_result(&mut self, node_id: &str, result: NodeResult)
        requires
            old(self).wf(),
        ensures
            final(self).wf(),
            final(self).results() == old(self).results().insert(node_id@, result),
            final(self).variables() == old(self).variables(),
            final(self).env() == old(self).env(),
            final(self).run_ids() == old(self).run_ids(),
    {
        self.results.insert(node_id, result);
    }

    /// The variable `key`, or `default` when it is not set.
    pub fn get_variable_or(&self, key: &str, default: &str) -> (r: String)
        requires
            self.wf(),
        ensures
            r@ == (if self.variables().contains_key(key@) {
                self.variables()[key@]@
            } else {
                default@
            }),
    {
        match self.variables.get(key) {
            Some(v) => v.clone(),
            None => owned(default),
        }
    }

    /// The output node `node_id` succeeded with, if it succeeded with one.
    pub fn get_node_output(&self, node_id: &str) -> (r: Option<String>)
        requires
            self.wf(),
        ensures
            match r {
                Some(o) => node_output(self.results(), node_id@) == Some(o@),
                None => node_output(self.results(), node_id@) is None,
            },
    {
        match self.results.get(node_id) {
            Some(NodeResult::Success { output: Some(o) }) => Some(o.clone()),
            _ => None,
        }
    }

    /// Whether node `node_id` has a result, and it is a success.
    pub fn node_succeeded(&self, node_id: &str) -> (r: bool)
        requires
            self.wf(),
        ensures
            r == (self.results().contains_key(node_id@) && self.results()[node_id@] is Success),
    {
        match self.results.get(node_id) {
            Some(NodeResult::Success { .. }) => true,
            _ => false,
        }
    }

    /// The environment variable `key` the run was started with.
    pub fn get_env(&self, key: &str) -> (r: Option<&str>)
        requires
            self.wf(),
        ensures
            match r {
                Some(v) => self.env().contains_key(key@) && self.env()[key@]@ == v@,
                None => !self.env().contains_key(key@),
            },
    {
        match self.env.get(key) {
            Some(v) => Some(v.as_str()),
            None => None,
        }
    }

    /// The value a `${path}` placeholder stands for: `env.NAME`, `node.ID.output`,
    /// `workflow.id`, `execution.id`, `execution.mode` or a variable's name; the empty
    /// text for anything unset or unknown.
    pub open spec fn resolve(&self, path: Seq<char>) -> Seq<char> {
        let p = split_on(path, '.');
        if p.len() == 2 && p[0] == "env"@ {
            lookup_text(self.env(), p[1])
        } else if p.len() == 3 && p[0] == "node"@ && p[2] == "output"@ {
            match node_output(self.results(), p[1]) {
                Some(o) => o,
                None => seq![],
            }
        } else if p.len() == 2 && p[0] == "workflow"@ && p[1] == "id"@ {
            self.run_ids().0
        } else if p.len() == 2 && p[0] == "execution"@ && p[1] == "id"@ {
            self.run_ids().1
        } else if p.len() == 2 && p[0] == "execution"@ && p[1] == "mode"@ {
            self.run_ids().2
        } else if p.len() == 1 {
            lookup_text(self.variables(), p[0])
        } else {
            seq![]
        }
    }

    /// `expr` with its placeholders filled in: for each `${...}` match, left to right,
    /// every occurrence of it in the text so far is replaced by what it stands for.
    pub open spec fn expression_value(&self, expr: Seq<char>) -> Seq<char> {
        let caps = captures_from(expr, 0);
        substitute(expr, Seq::new(caps.len(), |k: int| (caps[k].0, self.resolve(caps[k].1))))
    }

    fn lookup_or_empty(m: &StrMap<String>, key: &Vec<char>) -> (r: String)
        requires
            m.wf(),
        ensures
            r@ == lookup_text(m@, key@),
    {
        let k = string_from_chars(key);
        match m.get(k.as_str()) {
            Some(v) => v.clone(),
            None => String::new(),
        }
    }

    fn resolve_variable_path(&self, path: &str) -> (r: String)
        requires
            self.wf(),
        ensures
            r@ == self.resolve(path@),
    {
        let parts = split_char(&str_chars(path), '.');
        let ghost p = seq_views(parts@);
        assert(p.len() == parts@.len());
        let n = parts.len();
        proof {
            reveal_strlit("env");
            reveal_strlit("node");
            reveal_strlit("output");
            reveal_strlit("workflow");
            reveal_strlit("id");
            reveal_strlit("execution");
            reveal_strlit("mode");
        }
        if n == 2 && chars_eq(&parts[0], &str_chars("env")) {
            assert(p[0] == parts@[0]@ && p[1] == parts@[1]@);
            return Self::lookup_or_empty(&self.env, &parts[1]);
        }
        if n == 3 && chars_eq(&parts[0], &str_chars("node")) && chars_eq(&parts[2], &str_chars("output")) {
            assert(p[0] == parts@[0]@ && p[1] == parts@[1]@ && p[2] == parts@[2]@);
            let id = string_from_chars(&parts[1]);
            return match self.get_node_output(id.as_str()) {
                Some(o) => o,
                None => String::new(),
            };
        }
        if n == 2 {
            assert(p[0] == parts@[0]@ && p[1] == parts@[1]@);
            if chars_eq(&parts[0], &str_chars("workflow")) && chars_eq(&parts[1], &str_chars("id")) {
                return self.workflow_id.clone();
            }
            if chars_eq(&parts[0], &str_chars("execution")) && chars_eq(&parts[1], &str_chars("id")) {
                return self.execution_id.clone();
            }
            if chars_eq(&parts[0], &str_chars("execution")) && chars_eq(&parts[1], &str_chars("mode")) {
                return self.execution_mode.clone();
            }
        }
        if n == 1 {
            assert(p[0] == parts@[0]@);
            return Self::lookup_or_empty(&self.variables, &parts[0]);
        }
        String::new()
    }

    /// `expr` with its `${...}` placeholders filled in (see `resolve`).
    pub fn evaluate_expression(&self, expr: &str) -> (r: String)
        requires
            self.wf(),
        ensures
            r@ == self.expression_value(expr@),
    {
        let chars = str_chars(expr);
        let caps = find_placeholders(&chars);
        let ghost cv = captures_from(expr@, 0);
        let ghost reps = Seq::new(cv.len(), |k: int| (cv[k].0, self.resolve(cv[k].1)));
        proof {
            lemma_captures_nonempty(expr@, 0);
        }
        let mut result = owned(expr);
        let mut k: usize = 0;
        assert(reps.subrange(0, 0) =~= Seq::<(Seq<char>, Seq<char>)>::empty());
        while k < caps.len()
            invariant
                self.wf(),
                k <= caps@.len(),
                chars@ == expr@,
                pair_views(caps@) == cv,
                cv == captures_from(expr@, 0),
                reps == Seq::new(cv.len(), |j: int| (cv[j].0, self.resolve(cv[j].1))),
                forall|j: int| 0 <= j < cv.len() ==> (#[trigger] cv[j]).0.len() > 0,
                result@ == substitute(expr@, reps.subrange(0, k as int)),
            decreases caps@.len() - k,
        {
            assert(cv[k as int] == (caps@[k as int].0@, caps@[k as int].1@));
            let whole = string_from_chars(&caps[k].0);
            let inner = string_from_chars(&caps[k].1);
            let value = self.resolve_variable_path(inner.as_str());
            result = replace_all(result.as_str(), whole.as_str(), value.as_str());
            proof {
                let t = reps.subrange(0, k + 1);
                assert(t.drop_last() =~= reps.subrange(0, k as int));
                assert(t.last() == reps[k as int]);
            }
            k = k + 1;
        }
        assert(reps.subrange(0, caps@.len() as int) =~= reps);
        result
    }

    /// What the condition `expr` comes to once its placeholders are filled in (see
    /// `condition_meaning`). Numeric comparisons are left to the caller, in order.
    pub fn evaluate_condition(&self, expr: &str) -> (r: Comparison)
        requires
            self.wf(),
        ensures
            match condition_meaning(self.expression_value(expr@)) {
                Ok(b) => r matches Comparison::Decided(x) && x == b,
                Err(checks) => r matches Comparison::Numeric(v) && check_views(v@) == checks,
            },
    {
        let expanded = self.evaluate_expression(expr);
        let ev = str_chars(expanded.as_str());
        let trimmed = string_from_chars(&trim_chars(&ev));
        let key = to_lowercase(trimmed.as_str());
        proof {
            reveal_strlit("true");
            reveal_strlit("1");
            reveal_strlit("yes");
            reveal_strlit("false");
            reveal_strlit("0");
            reveal_strlit("no");
        }
        if str_eq(key.as_str(), "true") || str_eq(key.as_str(), "1") || str_eq(key.as_str(), "yes") {
            return Comparison::Decided(true);
        }
        if str_eq(key.as_str(), "false") || str_eq(key.as_str(), "0") || str_eq(key.as_str(), "no")
            || key.as_str().unicode_len() == 0 {
            return Comparison::Decided(false);
        }
        comparison_of(&ev)
    }

    /// `text` with every `${name}` of a variable replaced by its value, one variable at a
    /// time in the order of `names` (the variables' names).
    pub fn expand_variables(&self, text: &str) -> (r: String)
        requires
            self.wf(),
        ensures
            exists|names: Seq<Seq<char>>| #![trigger names.len()]
                names.len() == self.variables().dom().len() && (forall|k: Seq<char>| #[trigger] self.variables().contains_key(k) ==> names.contains(k))
                    && r@ == expand_all(text@, names, self.variables()),
    {
        let keys = self.variables.keys();
        let ghost names = Seq::new(keys@.len(), |i: int| keys@[i]@);
        let mut out = owned(text);
        let mut i: usize = 0;
        while i < keys.len()
            invariant
                self.wf(),
                i <= keys@.len(),
                names == Seq::new(keys@.len(), |j: int| keys@[j]@),
                forall|j: int| 0 <= j < keys@.len() ==> self.variables@.contains_key(#[trigger] keys@[j]@),
                out@ == expand_all(text@, names.subrange(0, i as int), self.variables@),
            decreases keys@.len() - i,
        {
            let value = match self.variables.get(keys[i].as_str()) {
                Some(v) => v,
                None => {
                    assert(false);
                    return out;
                },
            };
            let placeholder = concat(concat("${", keys[i].as_str()).as_str(), "}");
            proof {
                reveal_strlit("${");
                reveal_strlit("}");
            }
            let replaced = replace_all(out.as_str(), placeholder.as_str(), value.as_str());
            proof {
                let t = names.subrange(0, i + 1);
                assert(t.drop_last() =~= names.subrange(0, i as int));
                assert(t.last() == keys@[i as int]@);
            }
            out = replaced;
            i = i + 1;
        }
        proof {
            assert(names.subrange(0, keys@.len() as int) =~= names);
            assert forall|k: Seq<char>| #[trigger] self.variables@.contains_key(k) implies names.contains(k) by {
                let j = choose|j: int| 0 <= j < keys@.len() && keys@[j]@ == k;
                assert(names[j] == k);
            }
        }
        out
    }
}

/// `s` from `i` on, with each leftmost non-overlapping occurrence of `pat` replaced by
/// `val` (`str::replace` with a non-empty pattern).
pub open spec fn replace_from(s: Seq<char>, pat: Seq<char>, val: Seq<char>, i: int) -> Seq<char>
    decreases s.len() - i,
{
    if i < 0 || i >= s.len() || pat.len() == 0 {
        if 0 <= i <= s.len() {
            s.subrange(i, s.len() as int)
        } else {
            seq![]
        }
    } else if i + pat.len() <= s.len() && s.subrange(i, i + pat.len()) == pat {
        val + replace_from(s, pat, val, i + pat.len())
    } else {
        seq![s[i]] + replace_from(s, pat, val, i + 1)
    }
}

/// The placeholder of the variable `name`: `${name}`.
pub open spec fn placeholder(name: Seq<char>) -> Seq<char> {
    "${"@ + name + "}"@
}

/// `text` with the placeholders of `names` replaced, in order, by the variables' values.
pub open spec fn expand_all(text: Seq<char>, names: Seq<Seq<char>>, vars: Map<Seq<char>, String>) -> Seq<char>
    decreases names.len(),
{
    if names.len() == 0 {
        text
    } else {
        let before = expand_all(text, names.drop_last(), vars);
        replace_from(before, placeholder(names.last()), vars[names.last()]@, 0)
    }
}

/// `s` with every leftmost non-overlapping occurrence of the non-empty `pat` replaced by
/// `val`.
pub fn replace_all(s: &str, pat: &str, val: &str) -> (r: String)
    requires
        pat@.len() > 0,
    ensures
        r@ == replace_from(s@, pat@, val@, 0),
{
    let sv = str_chars(s);
    let pv = str_chars(pat);
    let vv = str_chars(val);
    let n = sv.len();
    let m = pv.len();
    let mut out: Vec<char> = Vec::new();
    let mut i: usize = 0;
    while i < n
        invariant
            n == sv@.len(),
            m == pv@.len(),
            m > 0,
            i <= n,
            out@ + replace_from(sv@, pv@, vv@, i as int) == replace_from(sv@, pv@, vv@, 0),
        decreases n - i,
    {
        let mut matched = m <= n - i;
        let mut j: usize = 0;
        if matched {
            assert(sv@.subrange(i as int, i as int) =~= pv@.subrange(0, 0));
            while j < m
                invariant
                    m == pv@.len(),
                    n == sv@.len(),
                    i + m <= n,
                    j <= m,
                    matched == (sv@.subrange(i as int, i + j) == pv@.subrange(0, j as int)),
                decreases m - j,
            {
                if sv[i + j] != pv[j] {
                    matched = false;
                }
                proof {
                    if matched {
                        assert(sv@.subrange(i as int, i + j + 1) =~= sv@.subrange(i as int, i + j).push(sv@[i + j]));
                        assert(pv@.subrange(0, j + 1) =~= pv@.subrange(0, j as int).push(pv@[j as int]));
                    } else if sv@.subrange(i as int, i + j + 1) == pv@.subrange(0, j + 1) {
                        assert(sv@.subrange(i as int, i + j + 1)[j as int] == pv@.subrange(0, j + 1)[j as int]);
                        if sv@[i + j] == pv@[j as int] {
                            assert(sv@.subrange(i as int, i + j) =~= sv@.subrange(i as int, i + j + 1).drop_last());
                            assert(pv@.subrange(0, j as int) =~= pv@.subrange(0, j + 1).drop_last());
                        }
                    }
                }
                j = j + 1;
            }
            assert(pv@.subrange(0, m as int) =~= pv@);
        }
        let ghost before = out@;
        if matched {
            let mut k: usize = 0;
            while k < vv.len()
                invariant
                    k <= vv@.len(),
                    out@ == before + vv@.subrange(0, k as int),
                decreases vv@.len() - k,
            {
                out.push(vv[k]);
                k = k + 1;
                assert(out@ =~= before + vv@.subrange(0, k as int));
            }
            assert(vv@.subrange(0, vv@.len() as int) =~= vv@);
            assert(out@ + replace_from(sv@, pv@, vv@, (i + m) as int) =~= before + replace_from(sv@, pv@, vv@, i as int));
            i = i + m;
        } else {
            out.push(sv[i]);
            assert(out@ + replace_from(sv@, pv@, vv@, (i + 1) as int) =~= before + replace_from(sv@, pv@, vv@, i as int));
            i = i + 1;
        }
    }
    assert(sv@.subrange(n as int, n as int) =~= Seq::<char>::empty());
    assert(out@ =~= replace_from(sv@, pv@, vv@, 0));
    string_from_chars(&out)
}

/// How a node's result leaves the run: success completes it, failure fails it, a skip
/// cancels it.
pub fn node_status(result: &NodeResult) -> (r: ExecutionStatus)
    ensures
        r == match *result {
            NodeResult::Success { .. } => ExecutionStatus::Completed,
            NodeResult::Failure { .. } => ExecutionStatus::Failed,
            NodeResult::Skipped => ExecutionStatus::Cancelled,
        },
{
    match result {
        NodeResult::Success { .. } => ExecutionStatus::Completed,
        NodeResult::Failure { .. } => ExecutionStatus::Failed,
        NodeResult::Skipped => ExecutionStatus::Cancelled,
    }
}

/// The branch a condition node continues with: the true branch when it succeeded with
/// the output `true`, the false branch otherwise.
pub fn next_branch<'a>(result: &NodeResult, true_branch: &'a String, false_branch: &'a String) -> (r: &'a String)
    ensures
        r == (if (match *result {
            NodeResult::Success { output: Some(o) } => o@ == "true"@,
            _ => false,
        }) {
            true_branch
        } else {
            false_branch
        }),
{
    match result {
        NodeResult::Success { output: Some(o) } => {
            if str_eq(o.as_str(), "true") {
                true_branch
            } else {
                false_branch
            }
        },
        _ => false_branch,
    }
}

/// A condition's expanded text holds: it is `true` in any case, `1` or `success`, or it
/// contains `== success` or `= success`.
pub open spec fn condition_holds(expanded: Seq<char>) -> bool {
    lowercase(expanded) == "true"@ || expanded == "1"@ || expanded == "success"@ || contains_seq(expanded, "== success"@)
        || contains_seq(expanded, "= success"@)
}

/// Whether a condition's expanded text holds.
pub fn evaluate_condition(expanded: &str) -> (r: bool)
    ensures
        r == condition_holds(expanded@),
{
    let lower = to_lowercase(expanded);
    let a = str_eq(lower.as_str(), "true");
    let b = str_eq(expanded, "1");
    let c = str_eq(expanded, "success");
    let v = str_chars(expanded);
    let d = chars_contain(&v, &str_chars("== success"));
    let e = chars_contain(&v, &str_chars("= success"));
    a || b || c || d || e
}

/// The position of the first `c` in `s`, if any.
fn find_char_in(s: &Vec<char>, c: char) -> (r: Option<usize>)
    ensures
        match r {
            Some(k) => k < s@.len() && s@[k as int] == c && forall|j: int| 0 <= j < k ==> s@[j] != c,
            None => forall|j: int| 0 <= j < s@.len() ==> s@[j] != c,
        },
{
    let mut k: usize = 0;
    while k < s.len()
        invariant
            k <= s@.len(),
            forall|j: int| 0 <= j < k ==> s@[j] != c,
        decreases s@.len() - k,
    {
        if s[k] == c {
            return Some(k);
        }
        k = k + 1;
    }
    None
}

fn take_range(s: &Vec<char>, from: usize, to: usize) -> (r: Vec<char>)
    requires
        from <= to <= s@.len(),
    ensures
        r@ == s@.subrange(from as int, to as int),
{
    let mut r: Vec<char> = Vec::new();
    let mut k: usize = from;
    while k < to
        invariant
            from <= k <= to,
            to <= s@.len(),
            r@ == s@.subrange(from as int, k as int),
        decreases to - k,
    {
        r.push(s[k]);
        k = k + 1;
        assert(r@ =~= s@.subrange(from as int, k as int));
    }
    r
}

/// Index of the first `c` in `s` at or after... `s`'s first `c`, or its length.
pub open spec fn first_index(s: Seq<char>, c: char) -> int
    decreases s.len(),
{
    if s.len() == 0 {
        0
    } else if s[0] == c {
        0
    } else {
        1 + first_index(s.drop_first(), c)
    }
}

/// The target of a file transfer written `user@host:port`: exactly one `@`; the host is
/// what comes before the first `:` after it; the port is the piece after that `:` (up to
/// a second `:`), 22 when it is missing or doesn't read as a port.
pub open spec fn transfer_target(host: Seq<char>) -> Option<(Seq<char>, Seq<char>, u16)> {
    let at = first_index(host, '@');
    if at >= host.len() || first_index(host.subrange(at + 1, host.len() as int), '@') < host.len() - at - 1 {
        None
    } else {
        let user = host.subrange(0, at);
        let rest = host.subrange(at + 1, host.len() as int);
        let colon = first_index(rest, ':');
        let name = rest.subrange(0, colon);
        let port = if colon >= rest.len() {
            22u16
        } else {
            let after = rest.subrange(colon + 1, rest.len() as int);
            let piece = after.subrange(0, first_index(after, ':'));
            match parse_u64(piece) {
                Some(p) => if p <= 65535 {
                    p as u16
                } else {
                    22u16
                },
                None => 22u16,
            }
        };
        Some((user, name, port))
    }
}

proof fn lemma_first_index(s: Seq<char>, c: char)
    ensures
        0 <= first_index(s, c) <= s.len(),
        first_index(s, c) < s.len() ==> s[first_index(s, c)] == c,
        forall|j: int| 0 <= j < first_index(s, c) ==> s[j] != c,
    decreases s.len(),
{
    if s.len() > 0 && s[0] != c {
        lemma_first_index(s.drop_first(), c);
        assert forall|j: int| 0 <= j < first_index(s, c) implies s[j] != c by {
            if j > 0 {
                assert(s[j] == s.drop_first()[j - 1]);
            }
        }
    }
}

/// `first_index` agrees with a scan that found `c` at `k` (or nowhere).
proof fn lemma_first_index_at(s: Seq<char>, c: char, k: int)
    requires
        0 <= k <= s.len(),
        k < s.len() ==> s[k] == c,
        forall|j: int| 0 <= j < k ==> s[j] != c,
    ensures
        first_index(s, c) == k,
    decreases s.len(),
{
    if s.len() > 0 && k > 0 {
        assert forall|j: int| 0 <= j < k - 1 implies s.drop_first()[j] != c by {
            assert(s.drop_first()[j] == s[j + 1]);
        }
        lemma_first_index_at(s.drop_first(), c, k - 1);
    }
}

/// Splits a file transfer's `user@host:port` target.
pub fn parse_transfer_host(host: &str) -> (r: Result<(String, String, u16), String>)
    ensures
        match transfer_target(host@) {
            Some((user, name, port)) => r matches Ok((u, h, p)) && u@ == user && h@ == name && p == port,
            None => r matches Err(e) && e@ == "Invalid host format. Expected: username@host:port"@,
        },
{
    let s = str_chars(host);
    let n = s.len();
    let at = match find_char_in(&s, '@') {
        Some(a) => a,
        None => {
            proof {
                lemma_first_index_at(s@, '@', n as int);
            }
            return Err(owned("Invalid host format. Expected: username@host:port"));
        },
    };
    proof {
        lemma_first_index_at(s@, '@', at as int);
    }
    let rest = take_range(&s, at + 1, n);
    match find_char_in(&rest, '@') {
        Some(b) => {
            proof {
                lemma_first_index_at(rest@, '@', b as int);
            }
            return Err(owned("Invalid host format. Expected: username@host:port"));
        },
        None => {
            proof {
                lemma_first_index_at(rest@, '@', rest@.len() as int);
            }
        },
    }
    let user = take_range(&s, 0, at);
    let colon = match find_char_in(&rest, ':') {
        Some(c) => c,
        None => rest.len(),
    };
    proof {
        lemma_first_index_at(rest@, ':', colon as int);
    }
    let name = take_range(&rest, 0, colon);
    let port: u16 = if colon >= rest.len() {
        22
    } else {
        let after = take_range(&rest, colon + 1, rest.len());
        let end = match find_char_in(&after, ':') {
            Some(e) => e,
            None => after.len(),
        };
        proof {
            lemma_first_index_at(after@, ':', end as int);
        }
        let piece = take_range(&after, 0, end);
        match read_u64(&piece) {
            Some(p) => if p <= 65535 { p as u16 } else { 22 },
            None => 22,
        }
    };
    Ok((string_from_chars(&user), string_from_chars(&name), port))
}

/// What a file transfer action reports.
pub open spec fn transfer_report(source: Seq<char>, destination: Seq<char>, direction: TransferDirection, outcome: Result<(), Seq<char>>) -> Seq<char> {
    match outcome {
        Ok(()) => "Successfully transferred "@ + source + " "@ + (if direction == TransferDirection::Upload {
            "to"@
        } else {
            "from"@
        }) + " "@ + destination,
        Err(e) => "File transfer failed: "@ + e,
    }
}

/// The result of a file transfer action: it succeeds either way, with a message.
pub fn transfer_result(source: &str, destination: &str, direction: TransferDirection, outcome: Result<(), String>) -> (r: NodeResult)
    ensures
        r matches NodeResult::Success { output: Some(o) } && o@ == transfer_report(source@, destination@, direction, match outcome {
            Ok(()) => Ok(()),
            Err(e) => Err(e@),
        }),
{
    match outcome {
        Ok(()) => {
            let word = match direction {
                TransferDirection::Upload => "to",
                TransferDirection::Download => "from",
            };
            let mut s = concat("Successfully transferred ", source);
            s = concat(s.as_str(), " ");
            s = concat(s.as_str(), word);
            s = concat(s.as_str(), " ");
            s = concat(s.as_str(), destination);
            NodeResult::Success { output: Some(s) }
        },
        Err(e) => NodeResult::Success { output: Some(concat("File transfer failed: ", e.as_str())) },
    }
}

/// The result of an SSH command action: its output, or the failure as its output.
pub fn ssh_command_result(outcome: Result<String, String>) -> (r: NodeResult)
    ensures
        r matches NodeResult::Success { output: Some(o) } && o@ == match outcome {
            Ok(out) => out@,
            Err(e) => "SSH command failed: "@ + e@,
        },
{
    match outcome {
        Ok(out) => NodeResult::Success { output: Some(out) },
        Err(e) => NodeResult::Success { output: Some(concat("SSH command failed: ", e.as_str())) },
    }
}


/// The texts of `v`.
pub open spec fn id_views(v: Seq<String>) -> Seq<Seq<char>> {
    v.map_values(|x: String| x@)
}

/// The target of each connection, in order.
pub open spec fn targets(conns: Seq<Connection>) -> Seq<Seq<char>> {
    conns.map_values(|c: Connection| c.target_node@)
}

/// The nodes a run goes on with after a node with configuration `config`, whose
/// outgoing connections are `conns`, produced `result`: none after a failure; after a
/// condition, the branch it chose if a connection leads there; otherwise the target of
/// every outgoing connection, in order. (A failure below the first node leaves the run
/// completed; only the first node's failure fails it.)
pub open spec fn next_node_ids(conns: Seq<Connection>, config: NodeConfig, result: NodeResult) -> Seq<Seq<char>> {
    if result is Failure {
        seq![]
    } else {
        match config {
            NodeConfig::Condition { true_branch, false_branch, .. } => {
                let chosen = if (match result {
                    NodeResult::Success { output: Some(o) } => o@ == "true"@,
                    _ => false,
                }) {
                    true_branch@
                } else {
                    false_branch@
                };
                if exists|i: int| 0 <= i < conns.len() && (#[trigger] conns[i]).target_node@ == chosen {
                    seq![chosen]
                } else {
                    seq![]
                }
            },
            _ => targets(conns),
        }
    }
}

/// Where a run goes after a node: nowhere after a failure; after a condition, to its
/// true branch when it succeeded with the output `true` and to its false branch
/// otherwise, and only if one of the node's connections leads there; after any other
/// node, to the target of each outgoing connection, in order.
pub proof fn law_next_nodes_follow_the_result(conns: Seq<Connection>, config: NodeConfig, result: NodeResult)
    ensures
        result is Failure ==> next_node_ids(conns, config, result).len() == 0,
        !(config is Condition) && !(result is Failure) ==> {
            &&& next_node_ids(conns, config, result).len() == conns.len()
            &&& forall|i: int| 0 <= i < conns.len() ==> next_node_ids(conns, config, result)[i] == (#[trigger] conns[i]).target_node@
        },
        match config {
            NodeConfig::Condition { true_branch, false_branch, .. } => !(result is Failure) ==> {
                let chosen = match result {
                    NodeResult::Success { output: Some(o) } => if o@ == "true"@ { true_branch@ } else { false_branch@ },
                    _ => false_branch@,
                };
                &&& next_node_ids(conns, config, result).len() <= 1
                &&& next_node_ids(conns, config, result).len() == 1 ==> next_node_ids(conns, config, result)[0] == chosen
                &&& (next_node_ids(conns, config, result).len() == 1 <==> exists|i: int| 0 <= i < conns.len() && (#[trigger] conns[i]).target_node@ == chosen)
            },
            _ => true,
        },
{
}

/// The ids of the nodes to run after `node` produced `result`, in order.
pub fn next_nodes(workflow: &Workflow, node: &Node, result: &NodeResult) -> (r: Vec<String>)
    ensures
        id_views(r@) == next_node_ids(picked(workflow.connections@, node.id@, false, None), node.config, *result),
{
    let ghost expected = picked(workflow.connections@, node.id@, false, None);
    if let NodeResult::Failure { .. } = result {
        let r: Vec<String> = Vec::new();
        assert(id_views(r@) =~= seq![]);
        return r;
    }
    let conns = workflow.get_outgoing_connections(node.id.as_str());
    assert(same_connections(conns@, expected));
    match &node.config {
        NodeConfig::Condition { true_branch, false_branch, .. } => {
            let chosen = next_branch(result, true_branch, false_branch);
            let ghost found = exists|j: int| 0 <= j < expected.len() && (#[trigger] expected[j]).target_node@ == chosen@;
            assert(found ==> next_node_ids(expected, node.config, *result) == seq![chosen@]);
            assert(!found ==> next_node_ids(expected, node.config, *result) == Seq::<Seq<char>>::empty());
            let mut i: usize = 0;
            while i < conns.len()
                invariant
                    i <= conns@.len(),
                    expected == picked(workflow.connections@, node.id@, false, None),
                    found == exists|j: int| 0 <= j < expected.len() && (#[trigger] expected[j]).target_node@ == chosen@,
                    found ==> next_node_ids(expected, node.config, *result) == seq![chosen@],
                    !found ==> next_node_ids(expected, node.config, *result) == Seq::<Seq<char>>::empty(),
                    same_connections(conns@, expected),
                    forall|j: int| 0 <= j < i ==> (#[trigger] expected[j]).target_node@ != chosen@,
                decreases conns@.len() - i,
            {
                assert(same_connection(conns@[i as int], expected[i as int]));
                if str_eq(conns[i].target_node.as_str(), chosen.as_str()) {
                    assert(expected[i as int].target_node@ == chosen@);
                    let mut r: Vec<String> = Vec::new();
                    r.push(chosen.clone());
                    assert(id_views(r@) =~= seq![chosen@]);
                    return r;
                }
                i = i + 1;
            }
            let r: Vec<String> = Vec::new();
            assert(id_views(r@) =~= seq![]);
            r
        },
        _ => {
            let mut r: Vec<String> = Vec::new();
            let mut i: usize = 0;
            while i < conns.len()
                invariant
                    i <= conns@.len(),
                    same_connections(conns@, expected),
                    id_views(r@) == targets(expected).subrange(0, i as int),
                decreases conns@.len() - i,
            {
                assert(same_connection(conns@[i as int], expected[i as int]));
                let t = conns[i].target_node.clone();
                assert(t@ == targets(expected)[i as int]);
                let ghost before = r@;
                r.push(t);
                assert(id_views(r@) =~= id_views(before).push(t@));
                assert(id_views(r@) =~= targets(expected).subrange(0, i + 1));
                i = i + 1;
            }
            assert(targets(expected).subrange(0, conns@.len() as int) =~= targets(expected));
            r
        },
    }
}


/// A workflow run in progress, depth first from the trigger: each node runs, then the
/// nodes it leads to (see `next_node_ids`), each with everything below it, before the
/// next sibling. `pending` holds the ids still to run, the next one last.
pub struct WorkflowRun {
    pending: Vec<String>,
    first_done: bool,
    status: ExecutionStatus,
}

/// What a run does next: execute a node (the caller runs it and hands the result to
/// `finish_node`), or end with the run's outcome.
pub enum RunStep<'a> {
    Execute(&'a Node),
    Done(Result<ExecutionStatus, WorkflowError>),
}

impl WorkflowRun {
    /// The ids still to run; the last one runs next.
    pub closed spec fn pending(&self) -> Seq<Seq<char>> {
        id_views(self.pending@)
    }

    /// Whether the first node (the trigger) has finished.
    pub closed spec fn first_done(&self) -> bool {
        self.first_done
    }

    /// The status the run ends with if nothing else goes wrong.
    pub closed spec fn status(&self) -> ExecutionStatus {
        self.status
    }

    /// Starts a run of `workflow` at its first trigger node; refused without one.
    pub fn start(workflow: &Workflow) -> (r: Result<WorkflowRun, WorkflowError>)
        ensures
            r is Err <==> forall|i: int| 0 <= i < workflow.nodes@.len() ==> (#[trigger] workflow.nodes@[i]).node_type != NodeType::Trigger,
            r matches Err(e) ==> e is NoTriggerNode,
            r matches Ok(run) ==> exists|i: int| first_trigger(workflow.nodes@, i) && run.pending() == seq![workflow.nodes@[i].id@],
            r matches Ok(run) ==> !run.first_done() && run.status() == ExecutionStatus::Completed,
    {
        match workflow.find_trigger_node() {
            None => Err(WorkflowError::NoTriggerNode),
            Some(trigger) => {
                let mut pending: Vec<String> = Vec::new();
                pending.push(trigger.id.clone());
                let run = WorkflowRun { pending, first_done: false, status: ExecutionStatus::Completed };
                assert(run.pending() =~= seq![trigger.id@]);
                Ok(run)
            },
        }
    }

    /// Takes the next id to run. With none left the run is over with its status; an id
    /// that names no node ends it with `NodeNotFound`; otherwise the first node with
    /// that id is the one to execute.
    pub fn next_step<'a>(&mut self, workflow: &'a Workflow) -> (r: RunStep<'a>)
        ensures
            final(self).first_done() == old(self).first_done(),
            final(self).status() == old(self).status(),
            old(self).pending().len() == 0 ==> final(self).pending() == old(self).pending()
                && r == RunStep::<'a>::Done(Ok(old(self).status())),
            old(self).pending().len() > 0 ==> {
                let id = old(self).pending().last();
                &&& final(self).pending() == old(self).pending().drop_last()
                &&& match r {
                    RunStep::Execute(n) => exists|i: int| first_node_with_id(workflow.nodes@, id, i) && workflow.nodes@[i] == *n,
                    RunStep::Done(Err(WorkflowError::NodeNotFound(m))) => m@ == id && forall|i: int|
                        0 <= i < workflow.nodes@.len() ==> (#[trigger] workflow.nodes@[i]).id@ != id,
                    _ => false,
                }
            },
    {
        match self.pending.pop() {
            None => RunStep::Done(Ok(self.status)),
            Some(id) => {
                assert(id_views(self.pending@) =~= id_views(old(self).pending@).drop_last());
                match workflow.get_node(id.as_str()) {
                    Some(node) => RunStep::Execute(node),
                    None => RunStep::Done(Err(WorkflowError::NodeNotFound(id))),
                }
            },
        }
    }

    /// Records that `node` finished with `result`: the nodes it leads to run next, in
    /// order (a failed node leads nowhere), and a failure of the first node fails the
    /// run; a failure further down leaves it completed.
    pub fn finish_node(&mut self, workflow: &Workflow, node: &Node, result: &NodeResult)
        ensures
            final(self).pending() == old(self).pending() + next_node_ids(
                picked(workflow.connections@, node.id@, false, None),
                node.config,
                *result,
            ).reverse(),
            final(self).first_done(),
            final(self).status() == (if !old(self).first_done() && result is Failure {
                ExecutionStatus::Failed
            } else {
                old(self).status()
            }),
    {
        if !self.first_done {
            if let NodeResult::Failure { .. } = result {
                self.status = ExecutionStatus::Failed;
            }
            self.first_done = true;
        }
        let next = next_nodes(workflow, node, result);
        let ghost fd = self.first_done;
        let ghost st = self.status;
        let ghost base = id_views(self.pending@);
        let ghost nv = id_views(next@);
        let mut k: usize = next.len();
        while k > 0
            invariant
                k <= next@.len(),
                self.first_done == fd,
                self.status == st,
                nv == id_views(next@),
                nv.len() == next@.len(),
                id_views(self.pending@) == base + Seq::new((next@.len() - k) as nat, |t: int| nv[next@.len() - 1 - t]),
            decreases k,
        {
            k = k - 1;
            let ghost before = id_views(self.pending@);
            self.pending.push(next[k].clone());
            assert(id_views(self.pending@) =~= before.push(nv[k as int]));
            assert(id_views(self.pending@) =~= base + Seq::new((next@.len() - k) as nat, |t: int| nv[next@.len() - 1 - t]));
        }
        assert(Seq::new(next@.len() as nat, |t: int| nv[next@.len() - 1 - t]) =~= nv.reverse());
    }
}

} // verus!
