//! Command templates: an ordered sequence of literal and placeholder tokens,
//! built once from the user's template arguments; substitution is a pure
//! mapping from the template and a matched path to the argument list of one
//! invocation. Spawning the process and waiting belong to the caller.

use vstd::prelude::*;
use crate::strutil::{basename, basename_of, parent_dir, parent_of};

verus! {

/// Which fragment of the matched path a placeholder stands for.
#[derive(Clone, Copy, PartialEq, Eq, Structural, Debug)]
pub enum PlaceholderKind {
    /// The path as reported.
    FullPath,
    /// The fragment after the last `/`.
    Basename,
    /// The fragment before the last `/`.
    Parent,
}

/// One token of a command template.
pub enum Token {
    Text(String),
    Placeholder(PlaceholderKind),
}

/// The mathematical shape of a token.
#[verifier::ext_equal]
pub enum TokenModel {
    Text(Seq<char>),
    Placeholder(PlaceholderKind),
}

/// The token a single template argument denotes.
pub open spec fn spec_token_of(s: Seq<char>) -> TokenModel {
    if s == "{}"@ {
        TokenModel::Placeholder(PlaceholderKind::FullPath)
    } else if s == "{/}"@ {
        TokenModel::Placeholder(PlaceholderKind::Basename)
    } else if s == "{//}"@ {
        TokenModel::Placeholder(PlaceholderKind::Parent)
    } else {
        TokenModel::Text(s)
    }
}

impl Token {
    /// The token's mathematical shape.
    pub open spec fn model(&self) -> TokenModel {
        match self {
            Token::Text(s) => TokenModel::Text(s@),
            Token::Placeholder(k) => TokenModel::Placeholder(*k),
        }
    }
}

/// The shapes of a token sequence.
pub open spec fn models_of(tokens: Seq<Token>) -> Seq<TokenModel> {
    tokens.map_values(|t: Token| t.model())
}

/// The tokens a sequence of template arguments denotes.
pub open spec fn parsed_of(args: Seq<Seq<char>>) -> Seq<TokenModel> {
    args.map_values(|s: Seq<char>| spec_token_of(s))
}

/// Parse one template argument.
pub fn parse_token(s: &str) -> (t: Token)
    ensures
        t.model() == spec_token_of(s@),
{
    let owned = s.to_owned();
    if owned == "{}".to_owned() {
        Token::Placeholder(PlaceholderKind::FullPath)
    } else if owned == "{/}".to_owned() {
        Token::Placeholder(PlaceholderKind::Basename)
    } else if owned == "{//}".to_owned() {
        Token::Placeholder(PlaceholderKind::Parent)
    } else {
        Token::Text(owned)
    }
}

/// The template arguments before the first end-of-invocation token.
pub open spec fn args_before_end(args: Seq<Seq<char>>, end: Seq<char>) -> Seq<Seq<char>>
    decreases args.len(),
{
    if args.len() == 0 || args[0] == end {
        Seq::empty()
    } else {
        seq![args[0]] + args_before_end(args.drop_first(), end)
    }
}

/// Whether some token is a placeholder.
pub open spec fn has_placeholder(tokens: Seq<TokenModel>) -> bool {
    exists|i: int| 0 <= i < tokens.len() && tokens[i] is Placeholder
}

/// The token sequence a template is built from: the arguments before the end
/// token, parsed; a template with no placeholder gets the matched path
/// appended bare.
pub open spec fn spec_template_of(args: Seq<Seq<char>>, end: Seq<char>) -> Seq<TokenModel> {
    let parsed = parsed_of(args_before_end(args, end));
    if has_placeholder(parsed) {
        parsed
    } else {
        parsed.push(TokenModel::Placeholder(PlaceholderKind::FullPath))
    }
}

/// A template with no arguments before the end token names no program to run.
#[derive(Clone, Copy, PartialEq, Eq, Structural, Debug)]
pub enum TemplateError {
    Empty,
}

/// A command template: the tokens of one invocation, in order.
pub struct CommandTemplate {
    pub tokens: Vec<Token>,
}

impl CommandTemplate {
    /// The template's mathematical shape.
    pub open spec fn model(&self) -> Seq<TokenModel> {
        models_of(self.tokens@)
    }

    /// Build a template from the arguments of one invocation: tokens are read
    /// up to the first `end_token`; a template that names no placeholder has
    /// the matched path appended bare. Fails iff no argument precedes the end
    /// token, for that names no program.
    pub fn new(args: &Vec<String>, end_token: &str) -> (r: Result<CommandTemplate, TemplateError>)
        ensures
            r matches Ok(t) ==> t.model() == spec_template_of(args.deep_view(), end_token@),
            (r is Err) == (args_before_end(args.deep_view(), end_token@).len() == 0),
    {
        let ghost all = args.deep_view();
        let end: String = end_token.to_owned();
        let mut tokens: Vec<Token> = Vec::new();
        let mut saw_placeholder = false;
        let n = args.len();
        let mut i: usize = 0;
        proof {
            assert(all.skip(0) =~= all);
        }
        while i < n && !(args[i] == end)
            invariant
                n == args@.len(),
                all == args.deep_view(),
                end@ == end_token@,
                i <= n,
                args_before_end(all, end_token@) == all.take(i as int) + args_before_end(
                    all.skip(i as int),
                    end_token@,
                ),
                models_of(tokens@) == parsed_of(all.take(i as int)),
                saw_placeholder == has_placeholder(parsed_of(all.take(i as int))),
            decreases n - i,
        {
            let ghost pre = all.take(i as int);
            let ghost parsed_pre = parsed_of(pre);
            proof {
                assert(all.skip(i as int)[0] == all[i as int]);
                assert(all.skip(i as int).drop_first() =~= all.skip(i as int + 1));
                assert(all[i as int] != end_token@);
            }
            let t = parse_token(args[i].as_str());
            let is_ph = match t {
                Token::Placeholder(_) => true,
                Token::Text(_) => false,
            };
            let ghost toks0 = tokens@;
            let ghost tmodel = t.model();
            tokens.push(t);
            saw_placeholder = saw_placeholder || is_ph;
            proof {
                let pre2 = all.take(i as int + 1);
                let parsed2 = parsed_of(pre2);
                assert(pre2.drop_last() =~= pre);
                assert(pre2[i as int] == all[i as int]);
                assert(parsed2.drop_last() =~~= parsed_pre);
                assert(parsed2[i as int] == spec_token_of(all[i as int]));
                assert(toks0.len() == i);
                assert(tokens@ == toks0.push(t));
                assert(models_of(tokens@)[i as int] == tmodel);
                assert(tmodel == spec_token_of(all[i as int]));
                assert forall|k: int| 0 <= k < i implies models_of(tokens@)[k] == parsed2[k] by {
                    assert(models_of(tokens@)[k] == toks0[k].model());
                    assert(models_of(toks0)[k] == toks0[k].model());
                    assert(models_of(toks0)[k] == parsed_pre[k]);
                    assert(parsed2.drop_last()[k] == parsed2[k]);
                }
                assert(models_of(tokens@) =~~= parsed2);
                assert(args_before_end(all.skip(i as int), end_token@) == seq![all[i as int]]
                    + args_before_end(all.skip(i as int + 1), end_token@));
                assert(args_before_end(all, end_token@) =~= all.take(i as int + 1)
                    + args_before_end(all.skip(i as int + 1), end_token@));
                // a placeholder anywhere in the longer prefix is one in the
                // shorter prefix or the new token
                assert(has_placeholder(parsed2) == (has_placeholder(parsed_pre) || parsed2[
                    i as int
                ] is Placeholder)) by {
                    if has_placeholder(parsed_pre) {
                        let k = choose|k: int|
                            0 <= k < parsed_pre.len() && parsed_pre[k] is Placeholder;
                        assert(parsed2[k] is Placeholder);
                    }
                    if parsed2[i as int] is Placeholder {
                        assert(has_placeholder(parsed2));
                    }
                    if has_placeholder(parsed2) && !(parsed2[i as int] is Placeholder) {
                        let k = choose|k: int| 0 <= k < parsed2.len() && parsed2[k] is Placeholder;
                        if k < i {
                            assert(parsed_pre[k] is Placeholder);
                        }
                    }
                }
            }
            i = i + 1;
        }
        proof {
            assert(args_before_end(all.skip(i as int), end_token@) =~= Seq::<Seq<char>>::empty());
            assert(args_before_end(all, end_token@) =~= all.take(i as int));
        }
        if i == 0 {
            return Err(TemplateError::Empty);
        }
        if !saw_placeholder {
            tokens.push(Token::Placeholder(PlaceholderKind::FullPath));
            proof {
                let parsed = parsed_of(all.take(i as int));
                assert(models_of(tokens@) =~= parsed.push(
                    TokenModel::Placeholder(PlaceholderKind::FullPath),
                ));
            }
        }
        Ok(CommandTemplate { tokens })
    }
}

/// The argument lists of one invocation for a given matched path.
pub open spec fn subst_all(tokens: Seq<TokenModel>, path: Seq<char>) -> Seq<Seq<char>> {
    tokens.map_values(|t: TokenModel| spec_subst(t, path))
}

/// The string one token contributes for a given matched path.
pub open spec fn spec_subst(t: TokenModel, path: Seq<char>) -> Seq<char> {
    match t {
        TokenModel::Text(s) => s,
        TokenModel::Placeholder(PlaceholderKind::FullPath) => path,
        TokenModel::Placeholder(PlaceholderKind::Basename) => basename_of(path),
        TokenModel::Placeholder(PlaceholderKind::Parent) => parent_of(path),
    }
}

impl CommandTemplate {
    /// Instantiate the template for one matched path: every literal passes
    /// through, every placeholder becomes the chosen fragment of the path.
    pub fn generate(&self, path: &str) -> (r: Vec<String>)
        ensures
            r.deep_view() == subst_all(self.model(), path@),
    {
        let mut out: Vec<String> = Vec::new();
        let n = self.tokens.len();
        let mut i: usize = 0;
        proof {
            assert(out.deep_view() =~~= subst_all(self.model().take(0), path@));
        }
        while i < n
            invariant
                n == self.tokens@.len(),
                i <= n,
                out.deep_view() == subst_all(self.model().take(i as int), path@),
            decreases n - i,
        {
            let ghost done = subst_all(self.model().take(i as int), path@);
            let piece: String = match &self.tokens[i] {
                Token::Text(s) => s.clone(),
                Token::Placeholder(PlaceholderKind::FullPath) => path.to_owned(),
                Token::Placeholder(PlaceholderKind::Basename) => basename(path),
                Token::Placeholder(PlaceholderKind::Parent) => parent_dir(path),
            };
            out.push(piece);
            proof {
                let next = subst_all(self.model().take(i as int + 1), path@);
                assert(self.model().take(i as int + 1).drop_last() =~= self.model().take(i as int));
                assert(next.drop_last() =~~= done);
                assert(self.model()[i as int] == self.tokens@[i as int].model());
                assert(next[i as int] == spec_subst(self.model()[i as int], path@));
                assert(out@.len() == i + 1);
                assert(next.len() == i + 1);
                assert(out.deep_view()[i as int] == spec_subst(self.model()[i as int], path@));
                assert forall|k: int| 0 <= k < i implies out.deep_view()[k] == next[k] by {
                    assert(out.deep_view()[k] == done[k]);
                    assert(next.drop_last()[k] == next[k]);
                }
                assert(out.deep_view() =~~= next);
            }
            i = i + 1;
        }
        proof {
            assert(self.model().take(i as int) =~= self.model());
        }
        out
    }
}

/// The outcome of one spawned invocation.
#[derive(Clone, Copy, PartialEq, Eq, Structural, Debug)]
pub enum ExecutionResult {
    /// The child ran and exited successfully.
    Success,
    /// The child ran and exited unsuccessfully.
    ExitFailure,
    /// The child was ended by a signal.
    Signalled,
    /// The program could not be found or spawned.
    SpawnFailed,
}

/// Everything but a successful exit counts as a failure.
pub open spec fn is_failure(r: ExecutionResult) -> bool {
    !(r is Success)
}

/// The aggregate flag for a whole run: failure iff any invocation failed.
pub fn any_failure(results: &Vec<ExecutionResult>) -> (r: bool)
    ensures
        r == exists|i: int| 0 <= i < results@.len() && is_failure(#[trigger] results@[i]),
{
    let n = results.len();
    let mut i: usize = 0;
    while i < n
        invariant
            n == results@.len(),
            i <= n,
            forall|k: int| 0 <= k < i ==> !is_failure(#[trigger] results@[k]),
        decreases n - i,
    {
        let failed = match results[i] {
            ExecutionResult::Success => false,
            _ => true,
        };
        if failed {
            proof {
                assert(is_failure(results@[i as int]));
            }
            return true;
        }
        i = i + 1;
    }
    false
}

/// The basename fragment of every path, in order.
pub open spec fn basenames_of(paths: Seq<Seq<char>>) -> Seq<Seq<char>> {
    paths.map_values(|p: Seq<char>| basename_of(p))
}

/// The parent fragment of every path, in order.
pub open spec fn parents_of(paths: Seq<Seq<char>>) -> Seq<Seq<char>> {
    paths.map_values(|p: Seq<char>| parent_of(p))
}

/// What one token contributes in batch mode: a literal passes through once, a
/// placeholder expands to the chosen fragment of every matched path, in
/// delivery order.
pub open spec fn spec_subst_batch(t: TokenModel, paths: Seq<Seq<char>>) -> Seq<Seq<char>> {
    match t {
        TokenModel::Text(s) => seq![s],
        TokenModel::Placeholder(PlaceholderKind::FullPath) => paths,
        TokenModel::Placeholder(PlaceholderKind::Basename) => basenames_of(paths),
        TokenModel::Placeholder(PlaceholderKind::Parent) => parents_of(paths),
    }
}

/// The argument list of one batch invocation over a whole set of matches.
pub open spec fn batch_cmdline(tokens: Seq<TokenModel>, paths: Seq<Seq<char>>) -> Seq<Seq<char>>
    decreases tokens.len(),
{
    if tokens.len() == 0 {
        Seq::empty()
    } else {
        spec_subst_batch(tokens[0], paths) + batch_cmdline(tokens.drop_first(), paths)
    }
}

impl CommandTemplate {
    /// Instantiate the template once for the whole collected set of matches:
    /// every literal passes through once and every placeholder expands to the
    /// chosen fragment of each matched path, in delivery order.
    pub fn generate_batch(&self, paths: &Vec<String>) -> (r: Vec<String>)
        ensures
            r.deep_view() == batch_cmdline(self.model(), paths.deep_view()),
    {
        let ghost pv = paths.deep_view();
        let ghost models = self.model();
        let mut out: Vec<String> = Vec::new();
        let n = self.tokens.len();
        let mut i: usize = 0;
        proof {
            assert(models.skip(0) =~= models);
            assert(out.deep_view() + batch_cmdline(models, pv) =~~= batch_cmdline(models, pv));
        }
        while i < n
            invariant
                n == self.tokens@.len(),
                pv == paths.deep_view(),
                models == self.model(),
                i <= n,
                batch_cmdline(models, pv) == out.deep_view() + batch_cmdline(
                    models.skip(i as int),
                    pv,
                ),
            decreases n - i,
        {
            let ghost done0 = out.deep_view();
            let ghost tm = models[i as int];
            let ghost fr = spec_subst_batch(tm, pv);
            proof {
                assert(models.skip(i as int)[0] == models[i as int]);
                assert(models.skip(i as int).drop_first() =~= models.skip(i as int + 1));
                assert(batch_cmdline(models.skip(i as int), pv) == fr + batch_cmdline(
                    models.skip(i as int + 1),
                    pv,
                ));
            }
            match &self.tokens[i] {
                Token::Text(s) => {
                    out.push(s.clone());
                    proof {
                        assert(fr =~= seq![s@]);
                        let dv = out.deep_view();
                        assert(dv.len() == done0.len() + 1);
                        assert(dv[dv.len() - 1] == s@);
                        assert forall|k: int| 0 <= k < done0.len() implies dv[k] == done0[k] by {}
                        assert(dv =~~= done0 + fr);
                    }
                },
                Token::Placeholder(kind) => {
                    let kind = *kind;
                    let m = paths.len();
                    let mut j: usize = 0;
                    proof {
                        assert(tm == TokenModel::Placeholder(kind));
                        assert(fr.len() == m);
                        assert(out.deep_view() =~~= done0 + fr.take(0));
                    }
                    while j < m
                        invariant
                            m == paths@.len(),
                            pv == paths.deep_view(),
                            j <= m,
                            tm == TokenModel::Placeholder(kind),
                            fr == spec_subst_batch(tm, pv),
                            fr.len() == m,
                            out.deep_view() == done0 + fr.take(j as int),
                        decreases m - j,
                    {
                        let ghost before = out.deep_view();
                        let frag: String = match kind {
                            PlaceholderKind::FullPath => paths[j].clone(),
                            PlaceholderKind::Basename => basename(paths[j].as_str()),
                            PlaceholderKind::Parent => parent_dir(paths[j].as_str()),
                        };
                        out.push(frag);
                        proof {
                            assert(fr[j as int] == out.deep_view()[before.len() as int]);
                            let dv = out.deep_view();
                            assert(dv.len() == before.len() + 1);
                            assert forall|k: int| 0 <= k < before.len() implies dv[k]
                                == before[k] by {}
                            assert(fr.take(j as int + 1).drop_last() =~= fr.take(j as int));
                            assert(fr.take(j as int + 1)[j as int] == fr[j as int]);
                            assert(dv =~~= done0 + fr.take(j as int + 1));
                        }
                        j = j + 1;
                    }
                    proof {
                        assert(fr.take(m as int) =~= fr);
                    }
                },
            }
            proof {
                assert(batch_cmdline(models, pv) =~~= out.deep_view() + batch_cmdline(
                    models.skip(i as int + 1),
                    pv,
                ));
            }
            i = i + 1;
        }
        proof {
            assert(batch_cmdline(models.skip(n as int), pv) =~= Seq::<Seq<char>>::empty());
            assert(out.deep_view() + batch_cmdline(models.skip(n as int), pv) =~~= out.deep_view());
        }
        out
    }
}

} // verus!
