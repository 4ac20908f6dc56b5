//! The command-line grammar: a line is split on `|` into stages, each stage
//! is split on whitespace into a command and its arguments.  A stage without
//! any token is a parse error.  No quoting or escaping is recognised.

use vstd::prelude::*;
use vstd::string::*;
use crate::text::is_space;
use crate::text::is_space_char;

verus! {

/// Splitting on `'|'`, left to right: `cur` is the piece being read, `out`
/// the pieces already read.  A trailing or empty piece is kept.
pub open spec fn split_acc(s: Seq<char>, i: int, cur: Seq<char>, out: Seq<Seq<char>>) -> Seq<
    Seq<char>,
>
    decreases s.len() - i,
{
    if i < 0 || i >= s.len() {
        out.push(cur)
    } else if s[i] == '|' {
        split_acc(s, i + 1, Seq::empty(), out.push(cur))
    } else {
        split_acc(s, i + 1, cur.push(s[i]), out)
    }
}

/// The stages of a line: the pieces between `'|'` characters.
pub open spec fn split_pipes_spec(s: Seq<char>) -> Seq<Seq<char>> {
    split_acc(s, 0, Seq::empty(), Seq::empty())
}

/// Whitespace tokenisation, left to right: `cur` is the token being read
/// (empty when between tokens), `out` the tokens already read.
pub open spec fn tok_acc(s: Seq<char>, i: int, cur: Seq<char>, out: Seq<Seq<char>>) -> Seq<
    Seq<char>,
>
    decreases s.len() - i,
{
    if i < 0 || i >= s.len() {
        if cur.len() == 0 {
            out
        } else {
            out.push(cur)
        }
    } else if is_space(s[i]) {
        if cur.len() == 0 {
            tok_acc(s, i + 1, cur, out)
        } else {
            tok_acc(s, i + 1, Seq::empty(), out.push(cur))
        }
    } else {
        tok_acc(s, i + 1, cur.push(s[i]), out)
    }
}

/// The whitespace-separated tokens of a stage.
pub open spec fn tokens_of(s: Seq<char>) -> Seq<Seq<char>> {
    tok_acc(s, 0, Seq::empty(), Seq::empty())
}

/// The splitter always yields at least the piece it is reading.
proof fn lemma_split_acc_len(s: Seq<char>, i: int, cur: Seq<char>, out: Seq<Seq<char>>)
    ensures
        split_acc(s, i, cur, out).len() > out.len(),
    decreases s.len() - i,
{
    if i < 0 || i >= s.len() {
    } else if s[i] == '|' {
        lemma_split_acc_len(s, i + 1, Seq::empty(), out.push(cur));
    } else {
        lemma_split_acc_len(s, i + 1, cur.push(s[i]), out);
    }
}

/// Every line has at least one stage.
pub proof fn lemma_split_nonempty(s: Seq<char>)
    ensures
        split_pipes_spec(s).len() >= 1,
{
    lemma_split_acc_len(s, 0, Seq::empty(), Seq::empty());
}

/// Split a line into its pipeline stages.
pub fn split_pipes(line: &str) -> (r: Vec<String>)
    ensures
        r.deep_view() == split_pipes_spec(line@),
{
    let len = line.unicode_len();
    let mut out: Vec<String> = Vec::new();
    let mut start: usize = 0;
    let mut i: usize = 0;
    proof {
        assert(line@.subrange(0, 0) =~= Seq::<char>::empty());
        assert(out.deep_view() =~~= Seq::<Seq<char>>::empty());
    }
    while i < len
        invariant
            len == line@.len(),
            0 <= start <= i <= len,
            split_acc(line@, i as int, line@.subrange(start as int, i as int), out.deep_view())
                == split_pipes_spec(line@),
        decreases len - i,
    {
        let ghost cur = line@.subrange(start as int, i as int);
        let ghost dv = out.deep_view();
        let c = line.get_char(i);
        if c == '|' {
            let piece = line.substring_char(start, i).to_owned();
            out.push(piece);
            start = i + 1;
            proof {
                assert(out.deep_view() =~~= dv.push(cur));
                assert(line@.subrange(start as int, start as int) =~= Seq::<char>::empty());
            }
        } else {
            proof {
                assert(line@.subrange(start as int, i + 1) =~= cur.push(line@[i as int]));
            }
        }
        i += 1;
    }
    let piece = line.substring_char(start, len).to_owned();
    out.push(piece);
    proof {
        assert(out.deep_view() =~~= split_pipes_spec(line@));
    }
    out
}

/// Split a stage into its whitespace-separated tokens.
pub fn tokenize(stage: &str) -> (r: Vec<String>)
    ensures
        r.deep_view() == tokens_of(stage@),
{
    let len = stage.unicode_len();
    let mut out: Vec<String> = Vec::new();
    let mut tok_start: usize = 0;
    let mut in_tok: bool = false;
    let mut i: usize = 0;
    proof {
        assert(out.deep_view() =~~= Seq::<Seq<char>>::empty());
    }
    while i < len
        invariant
            len == stage@.len(),
            in_tok ==> 0 <= tok_start < i <= len,
            !in_tok ==> 0 <= i <= len,
            tok_acc(
                stage@,
                i as int,
                if in_tok {
                    stage@.subrange(tok_start as int, i as int)
                } else {
                    Seq::empty()
                },
                out.deep_view(),
            ) == tokens_of(stage@),
        decreases len - i,
    {
        let ghost cur = if in_tok {
            stage@.subrange(tok_start as int, i as int)
        } else {
            Seq::<char>::empty()
        };
        let ghost dv = out.deep_view();
        let c = stage.get_char(i);
        if is_space_char(c) {
            if in_tok {
                let tok = stage.substring_char(tok_start, i).to_owned();
                out.push(tok);
                in_tok = false;
                proof {
                    assert(out.deep_view() =~~= dv.push(cur));
                }
            }
        } else {
            if !in_tok {
                tok_start = i;
                in_tok = true;
            }
            proof {
                assert(stage@.subrange(tok_start as int, i + 1) =~= stage@.subrange(
                    tok_start as int,
                    i as int,
                ).push(stage@[i as int]));
                assert(cur.push(stage@[i as int]) =~= stage@.subrange(tok_start as int, i + 1));
            }
        }
        i += 1;
    }
    if in_tok {
        let tok = stage.substring_char(tok_start, len).to_owned();
        out.push(tok);
        proof {
            assert(out.deep_view() =~~= tokens_of(stage@));
        }
    }
    out
}

/// A token the grammar can reproduce: non-empty, no whitespace, no pipe.
pub open spec fn wf_token(t: Seq<char>) -> bool {
    t.len() > 0 && forall|i: int|
        0 <= i < t.len() ==> !is_space(#[trigger] t[i]) && t[i] != '|'
}

pub open spec fn wf_tokens(ts: Seq<Seq<char>>) -> bool {
    ts.len() > 0 && forall|i: int| 0 <= i < ts.len() ==> wf_token(#[trigger] ts[i])
}

/// Tokens joined by single blanks.
pub open spec fn join_tokens(ts: Seq<Seq<char>>) -> Seq<char>
    decreases ts.len(),
{
    if ts.len() == 0 {
        Seq::empty()
    } else if ts.len() == 1 {
        ts[0]
    } else {
        ts[0] + seq![' '] + join_tokens(ts.drop_first())
    }
}

/// Stage texts joined by pipes.
pub open spec fn join_stages(ss: Seq<Seq<char>>) -> Seq<char>
    decreases ss.len(),
{
    if ss.len() == 0 {
        Seq::empty()
    } else if ss.len() == 1 {
        ss[0]
    } else {
        ss[0] + seq!['|'] + join_stages(ss.drop_first())
    }
}

/// Scanning a run of non-blank characters extends the current token.
proof fn lemma_tok_acc_run(s: Seq<char>, i: int, cur: Seq<char>, out: Seq<Seq<char>>, j: int)
    requires
        0 <= i <= j <= s.len(),
        forall|k: int| i <= k < j ==> !is_space(#[trigger] s[k]),
    ensures
        tok_acc(s, i, cur, out) == tok_acc(s, j, cur + s.subrange(i, j), out),
    decreases j - i,
{
    if i == j {
        assert(cur + s.subrange(i, j) =~= cur);
    } else {
        lemma_tok_acc_run(s, i + 1, cur.push(s[i]), out, j);
        assert(cur.push(s[i]) + s.subrange(i + 1, j) =~= cur + s.subrange(i, j));
    }
}

/// Scanning a run of non-pipe characters extends the current stage text.
proof fn lemma_split_acc_run(s: Seq<char>, i: int, cur: Seq<char>, out: Seq<Seq<char>>, j: int)
    requires
        0 <= i <= j <= s.len(),
        forall|k: int| i <= k < j ==> #[trigger] s[k] != '|',
    ensures
        split_acc(s, i, cur, out) == split_acc(s, j, cur + s.subrange(i, j), out),
    decreases j - i,
{
    if i == j {
        assert(cur + s.subrange(i, j) =~= cur);
    } else {
        lemma_split_acc_run(s, i + 1, cur.push(s[i]), out, j);
        assert(cur.push(s[i]) + s.subrange(i + 1, j) =~= cur + s.subrange(i, j));
    }
}

/// Tokenising a suffix that is a blank-joined list of well-formed tokens
/// appends exactly those tokens.
proof fn lemma_tokens_round_at(s: Seq<char>, i: int, out: Seq<Seq<char>>, ts: Seq<Seq<char>>)
    requires
        0 <= i <= s.len(),
        s.subrange(i, s.len() as int) == join_tokens(ts),
        wf_tokens(ts),
    ensures
        tok_acc(s, i, Seq::empty(), out) == out + ts,
    decreases ts.len(),
{
    let t = ts[0];
    assert(wf_token(t));
    if ts.len() == 1 {
        assert(i + t.len() == s.len());
        assert forall|k: int| i <= k < s.len() implies !is_space(#[trigger] s[k]) by {
            assert(s[k] == s.subrange(i, s.len() as int)[k - i]);
        }
        lemma_tok_acc_run(s, i, Seq::empty(), out, s.len() as int);
        assert(Seq::<char>::empty() + s.subrange(i, s.len() as int) =~= t);
        assert(out + ts =~= out.push(t));
    } else {
        let rest = ts.drop_first();
        assert(join_tokens(ts) == t + seq![' '] + join_tokens(rest));
        let p = i + t.len();
        assert(p + 1 + join_tokens(rest).len() == s.len());
        assert forall|k: int| i <= k < p implies !is_space(#[trigger] s[k]) by {
            assert(s[k] == s.subrange(i, s.len() as int)[k - i]);
            assert(s.subrange(i, s.len() as int)[k - i] == t[k - i]);
        }
        lemma_tok_acc_run(s, i, Seq::empty(), out, p);
        assert(Seq::<char>::empty() + s.subrange(i, p) =~= t);
        assert(s[p] == ' ') by {
            assert(s[p] == s.subrange(i, s.len() as int)[p - i]);
            assert(s.subrange(i, s.len() as int)[t.len() as int] == ' ');
        }
        assert(tok_acc(s, p, t, out) == tok_acc(s, p + 1, Seq::empty(), out.push(t)));
        assert(s.subrange(p + 1, s.len() as int) =~= join_tokens(rest)) by {
            assert forall|k: int|
                0 <= k < s.len() - p - 1 implies s.subrange(p + 1, s.len() as int)[k]
                == join_tokens(rest)[k] by {
                assert(s[p + 1 + k] == s.subrange(i, s.len() as int)[p + 1 + k - i]);
            }
        }
        assert(wf_tokens(rest)) by {
            assert(forall|k: int| 0 <= k < rest.len() ==> #[trigger] rest[k] == ts[k + 1]);
        }
        lemma_tokens_round_at(s, p + 1, out.push(t), rest);
        assert(out.push(t) + rest =~= out + ts);
    }
}

/// Splitting a suffix that is a pipe-joined list of pipe-free stage texts
/// appends exactly those texts.
proof fn lemma_split_round_at(s: Seq<char>, i: int, out: Seq<Seq<char>>, ss: Seq<Seq<char>>)
    requires
        0 <= i <= s.len(),
        s.subrange(i, s.len() as int) == join_stages(ss),
        ss.len() >= 1,
        forall|k: int, c: int|
            0 <= k < ss.len() && 0 <= c < ss[k].len() ==> #[trigger] ss[k][c] != '|',
    ensures
        split_acc(s, i, Seq::empty(), out) == out + ss,
    decreases ss.len(),
{
    let t = ss[0];
    if ss.len() == 1 {
        assert(i + t.len() == s.len());
        assert forall|k: int| i <= k < s.len() implies #[trigger] s[k] != '|' by {
            assert(s[k] == s.subrange(i, s.len() as int)[k - i]);
            assert(s.subrange(i, s.len() as int)[k - i] == t[k - i]);
        }
        lemma_split_acc_run(s, i, Seq::empty(), out, s.len() as int);
        assert(Seq::<char>::empty() + s.subrange(i, s.len() as int) =~= t);
        assert(out + ss =~= out.push(t));
    } else {
        let rest = ss.drop_first();
        assert(join_stages(ss) == t + seq!['|'] + join_stages(rest));
        let p = i + t.len();
        assert(p + 1 + join_stages(rest).len() == s.len());
        assert forall|k: int| i <= k < p implies #[trigger] s[k] != '|' by {
            assert(s[k] == s.subrange(i, s.len() as int)[k - i]);
            assert(s.subrange(i, s.len() as int)[k - i] == t[k - i]);
        }
        lemma_split_acc_run(s, i, Seq::empty(), out, p);
        assert(Seq::<char>::empty() + s.subrange(i, p) =~= t);
        assert(s[p] == '|') by {
            assert(s[p] == s.subrange(i, s.len() as int)[p - i]);
            assert(s.subrange(i, s.len() as int)[t.len() as int] == '|');
        }
        assert(split_acc(s, p, t, out) == split_acc(s, p + 1, Seq::empty(), out.push(t)));
        assert(s.subrange(p + 1, s.len() as int) =~= join_stages(rest)) by {
            assert forall|k: int|
                0 <= k < s.len() - p - 1 implies s.subrange(p + 1, s.len() as int)[k]
                == join_stages(rest)[k] by {
                assert(s[p + 1 + k] == s.subrange(i, s.len() as int)[p + 1 + k - i]);
            }
        }
        assert(forall|k: int| 0 <= k < rest.len() ==> #[trigger] rest[k] == ss[k + 1]);
        lemma_split_round_at(s, p + 1, out.push(t), rest);
        assert(out.push(t) + rest =~= out + ss);
    }
}

/// A blank-joined list of well-formed tokens contains no pipe.
proof fn lemma_join_tokens_no_pipe(ts: Seq<Seq<char>>)
    requires
        wf_tokens(ts),
    ensures
        forall|c: int| 0 <= c < join_tokens(ts).len() ==> #[trigger] join_tokens(ts)[c] != '|',
    decreases ts.len(),
{
    let t = ts[0];
    assert(wf_token(t));
    if ts.len() > 1 {
        let rest = ts.drop_first();
        assert(wf_tokens(rest)) by {
            assert(forall|k: int| 0 <= k < rest.len() ==> #[trigger] rest[k] == ts[k + 1]);
        }
        lemma_join_tokens_no_pipe(rest);
        assert forall|c: int|
            0 <= c < join_tokens(ts).len() implies #[trigger] join_tokens(ts)[c] != '|' by {
            if c < t.len() {
                assert(join_tokens(ts)[c] == t[c]);
            } else if c == t.len() {
                assert(join_tokens(ts)[c] == ' ');
            } else {
                assert(join_tokens(ts)[c] == join_tokens(rest)[c - t.len() - 1]);
            }
        }
    }
}

/// Round trip: rendering pipeline stages - tokens joined by blanks, stages
/// joined by pipes - and parsing the result yields the same stages with the
/// same tokens, provided every token is non-empty and free of blanks and
/// pipes.
/// The canonical text of a pipeline given by its stages' tokens.
pub open spec fn rendered_line(ss: Seq<Seq<Seq<char>>>) -> Seq<char> {
    join_stages(ss.map_values(|ts: Seq<Seq<char>>| join_tokens(ts)))
}

pub proof fn lemma_parse_render_round_trip(ss: Seq<Seq<Seq<char>>>)
    requires
        ss.len() >= 1,
        forall|i: int| 0 <= i < ss.len() ==> wf_tokens(#[trigger] ss[i]),
    ensures
        split_pipes_spec(rendered_line(ss)).len() == ss.len(),
        forall|i: int|
            0 <= i < ss.len() ==> tokens_of(
                #[trigger] split_pipes_spec(rendered_line(ss))[i],
            ) == ss[i],
{
    let texts = ss.map_values(|ts: Seq<Seq<char>>| join_tokens(ts));
    let line = join_stages(texts);
    assert forall|k: int, c: int|
        0 <= k < texts.len() && 0 <= c < texts[k].len() implies #[trigger] texts[k][c]
        != '|' by {
        lemma_join_tokens_no_pipe(ss[k]);
    }
    assert(line.subrange(0, line.len() as int) =~= line);
    lemma_split_round_at(line, 0, Seq::empty(), texts);
    assert(split_pipes_spec(line) == Seq::<Seq<char>>::empty() + texts);
    assert(Seq::<Seq<char>>::empty() + texts =~= texts);
    assert forall|i: int| 0 <= i < ss.len() implies tokens_of(
        #[trigger] split_pipes_spec(line)[i],
    ) == ss[i] by {
        let piece = texts[i];
        assert(piece == join_tokens(ss[i]));
        assert(piece.subrange(0, piece.len() as int) =~= piece);
        lemma_tokens_round_at(piece, 0, Seq::empty(), ss[i]);
        assert(Seq::<Seq<char>>::empty() + ss[i] =~= ss[i]);
    }
}

proof fn lemma_join_tokens_push(ts: Seq<Seq<char>>, t: Seq<char>)
    requires
        ts.len() >= 1,
    ensures
        join_tokens(ts.push(t)) == join_tokens(ts) + seq![' '] + t,
    decreases ts.len(),
{
    if ts.len() == 1 {
        assert(ts.push(t).drop_first() =~= seq![t]);
        assert(ts.push(t).len() == 2);
        assert(ts.push(t)[0] == ts[0]);
        assert(join_tokens(seq![t]) == t);
        assert(join_tokens(ts.push(t)) == ts[0] + seq![' '] + t);
        assert(ts[0] + seq![' '] + t =~= join_tokens(ts) + seq![' '] + t);
    } else {
        assert(ts.push(t).drop_first() =~= ts.drop_first().push(t));
        lemma_join_tokens_push(ts.drop_first(), t);
        assert(ts[0] + seq![' '] + (join_tokens(ts.drop_first()) + seq![' '] + t)
            =~= join_tokens(ts) + seq![' '] + t);
    }
}

proof fn lemma_join_stages_push(ss: Seq<Seq<char>>, t: Seq<char>)
    requires
        ss.len() >= 1,
    ensures
        join_stages(ss.push(t)) == join_stages(ss) + seq!['|'] + t,
    decreases ss.len(),
{
    if ss.len() == 1 {
        assert(ss.push(t).drop_first() =~= seq![t]);
        assert(ss.push(t).len() == 2);
        assert(ss.push(t)[0] == ss[0]);
        assert(join_stages(seq![t]) == t);
        assert(join_stages(ss.push(t)) == ss[0] + seq!['|'] + t);
        assert(ss[0] + seq!['|'] + t =~= join_stages(ss) + seq!['|'] + t);
    } else {
        assert(ss.push(t).drop_first() =~= ss.drop_first().push(t));
        lemma_join_stages_push(ss.drop_first(), t);
        assert(ss[0] + seq!['|'] + (join_stages(ss.drop_first()) + seq!['|'] + t)
            =~= join_stages(ss) + seq!['|'] + t);
    }
}

/// Rejection of a command line by the grammar.
#[derive(Debug, Clone, Copy, PartialEq, Eq, Structural)]
pub enum ParseError {
    /// Some pipeline stage has no token at all.
    EmptyCommand,
}

/// The parsed form of one pipeline stage: the command and its arguments.
pub struct Stage {
    pub cmd: String,
    pub args: Vec<String>,
}

impl Stage {
    /// All tokens of the stage: the command followed by the arguments.
    pub open spec fn tokens(self) -> Seq<Seq<char>> {
        seq![self.cmd@] + self.args.deep_view()
    }
}

/// Parse a command line into stages.  The result is `Ok` exactly when every
/// stage between `|` separators holds at least one token.
pub fn parse_cmd(line: &str) -> (r: Result<Vec<Stage>, ParseError>)
    ensures
        r.is_ok() == (forall|i: int|
            0 <= i < split_pipes_spec(line@).len() ==> tokens_of(
                #[trigger] split_pipes_spec(line@)[i],
            ).len() > 0),
        r matches Ok(v) ==> {
            &&& v@.len() == split_pipes_spec(line@).len()
            &&& forall|i: int|
                0 <= i < v@.len() ==> #[trigger] v@[i].tokens() == tokens_of(
                    split_pipes_spec(line@)[i],
                )
        },
{
    let pieces = split_pipes(line);
    let mut stages: Vec<Stage> = Vec::new();
    let mut k: usize = 0;
    let n = pieces.len();
    proof {
        assert(pieces.deep_view().len() == pieces@.len());
    }
    while k < n
        invariant
            n == pieces@.len(),
            0 <= k <= n,
            pieces.deep_view() == split_pipes_spec(line@),
            stages@.len() == k,
            forall|i: int|
                0 <= i < k ==> #[trigger] stages@[i].tokens() == tokens_of(
                    split_pipes_spec(line@)[i],
                ),
            forall|i: int|
                0 <= i < k ==> tokens_of(#[trigger] split_pipes_spec(line@)[i]).len() > 0,
        decreases n - k,
    {
        proof {
            assert(pieces.deep_view()[k as int] == pieces@[k as int]@);
        }
        let mut toks = tokenize(pieces[k].as_str());
        if toks.len() == 0 {
            proof {
                assert(tokens_of(split_pipes_spec(line@)[k as int]).len() == 0);
            }
            return Err(ParseError::EmptyCommand);
        }
        let ghost tv = toks.deep_view();
        let cmd = toks.remove(0);
        let stage = Stage { cmd, args: toks };
        proof {
            assert(stage.tokens() =~= tv);
        }
        stages.push(stage);
        k += 1;
    }
    Ok(stages)
}

/// Rebuild one stage's text: its tokens joined by blanks.
pub fn render_stage(st: &Stage) -> (r: String)
    ensures
        r@ == join_tokens(st.tokens()),
{
    let mut s = st.cmd.clone();
    proof {
        assert((seq![st.cmd@] + st.args.deep_view()).take(1) =~= seq![st.cmd@]);
        assert(join_tokens(seq![st.cmd@]) == st.cmd@);
    }
    let n = st.args.len();
    let mut k: usize = 0;
    while k < n
        invariant
            n == st.args@.len(),
            0 <= k <= n,
            st.args.deep_view().len() == n,
            s@ == join_tokens(st.tokens().take(k + 1)),
        decreases n - k,
    {
        let ghost pref = st.tokens().take(k + 1);
        proof {
            reveal_strlit(" ");
        }
        s.append(" ");
        s.append(st.args[k].as_str());
        proof {
            assert(st.args.deep_view()[k as int] == st.args@[k as int]@);
            assert(st.tokens().take(k + 2) =~= pref.push(st.args@[k as int]@));
            lemma_join_tokens_push(pref, st.args@[k as int]@);
            assert(s@ =~= join_tokens(pref) + seq![' '] + st.args@[k as int]@);
        }
        k += 1;
    }
    proof {
        assert(st.tokens().take(n + 1) =~= st.tokens());
    }
    s
}

/// Rebuild the whole line: stage texts joined by pipes.
pub fn render(stages: &Vec<Stage>) -> (r: String)
    requires
        stages@.len() >= 1,
    ensures
        r@ == rendered_line(stages@.map_values(|st: Stage| st.tokens())),
{
    let ghost texts = stages@.map_values(|st: Stage| join_tokens(st.tokens()));
    proof {
        assert(texts =~= stages@.map_values(|st: Stage| st.tokens()).map_values(
            |ts: Seq<Seq<char>>| join_tokens(ts),
        ));
    }
    let mut s = render_stage(&stages[0]);
    proof {
        assert(texts.take(1) =~= seq![texts[0]]);
        assert(join_stages(texts.take(1)) == texts[0]);
    }
    let n = stages.len();
    let mut k: usize = 1;
    while k < n
        invariant
            n == stages@.len(),
            1 <= k <= n,
            texts == stages@.map_values(|st: Stage| join_tokens(st.tokens())),
            s@ == join_stages(texts.take(k as int)),
        decreases n - k,
    {
        let ghost pref = texts.take(k as int);
        proof {
            reveal_strlit("|");
        }
        s.append("|");
        let piece = render_stage(&stages[k]);
        s.append(piece.as_str());
        proof {
            assert(texts.take(k + 1) =~= pref.push(texts[k as int]));
            lemma_join_stages_push(pref, texts[k as int]);
            assert(s@ =~= join_stages(pref) + seq!['|'] + texts[k as int]);
        }
        k += 1;
    }
    proof {
        assert(texts.take(n as int) =~= texts);
    }
    s
}

} // verus!
