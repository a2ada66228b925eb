//! One-shot commands: a named, ordered list of stages run synchronously,
//! each with its presentation rules. The stage with position `i` carries
//! the id `i + 1`, assigned in declaration order.
use vstd::prelude::*;
use crate::color::{ansi_code_of, Color};
use crate::command_stage::Stage;
use crate::config::SortRules;
use crate::text::{
    lemma_lex_total, lemma_lex_trans, lex_le, lower_of, lowercase, split_whitespace,
    split_whitespace_spec, str_le,
};
use vstd::string::{StrSliceExecFns, StringExecFns};

verus! {

/// A named one-shot command: ordered stages run in sequence.
#[derive(Debug, Clone)]
pub struct CommandBuilder {
    /// The command's name, case-folded to lowercase.
    pub name: String,
    pub description: String,
    /// The stages in declaration order; position `i` is stage id `i + 1`.
    pub stages: Vec<Stage>,
    /// The shell interpreter the stages are run with.
    pub shell: String,
}

impl CommandBuilder {
    /// A command with no stages yet; the name is case-folded to lowercase.
    pub fn new(name: String, desc: String, shell: String) -> (c: CommandBuilder)
        ensures
            c.name@ == lower_of(name@),
            c.description == desc,
            c.shell == shell,
            c.stages@ == Seq::<Stage>::empty(),
    {
        let folded = lowercase(name.as_str());
        let c = CommandBuilder { name: folded, description: desc, stages: Vec::new(), shell };
        proof {
            assert(c.stages@ =~= Seq::<Stage>::empty());
        }
        c
    }

    /// Appends a stage; its id is one past the previous highest.
    pub fn add_stage(&mut self, command: String, colored: Color, sorted: Option<SortRules>)
        ensures
            final(self).stages@ == old(self).stages@.push(
                Stage { command, color: colored, sorted },
            ),
            final(self).name == old(self).name,
            final(self).description == old(self).description,
            final(self).shell == old(self).shell,
    {
        self.stages.push(Stage { command, color: colored, sorted });
    }

    /// The command's stages in ascending id order.
    pub fn get_stages(&self) -> (r: &Vec<Stage>)
        ensures
            r@ == self.stages@,
    {
        &self.stages
    }

    /// The stage table keyed by position: id `i + 1` stands at index `i`.
    pub fn get_map(&self) -> (r: &Vec<Stage>)
        ensures
            r@ == self.stages@,
    {
        &self.stages
    }
}

/// The views of a word list.
pub open spec fn word_views(ws: Seq<String>) -> Seq<Seq<char>> {
    ws.map_values(|w: String| w@)
}

/// Whether the words stand in lexicographic order.
pub open spec fn words_sorted(ws: Seq<Seq<char>>) -> bool {
    forall|i: int, j: int| 0 <= i < j < ws.len() ==> lex_le(ws[i], ws[j])
}

/// Sorts the words in lexicographic order, keeping multiplicities.
pub fn sort_strings(v: Vec<String>) -> (r: Vec<String>)
    ensures
        word_views(r@).to_multiset() == word_views(v@).to_multiset(),
        words_sorted(word_views(r@)),
{
    broadcast use vstd::seq_lib::group_to_multiset_ensures;

    let mut r: Vec<String> = Vec::new();
    let n = v.len();
    proof {
        assert(word_views(v@.take(0)) =~= Seq::<Seq<char>>::empty());
        assert(word_views(r@) =~= Seq::<Seq<char>>::empty());
    }
    let mut idx: usize = 0;
    while idx < n
        invariant
            n == v@.len(),
            idx <= n,
            word_views(r@).to_multiset() == word_views(v@.take(idx as int)).to_multiset(),
            words_sorted(word_views(r@)),
        decreases n - idx,
    {
        let x = v[idx].clone();
        let ghost xv = v@[idx as int]@;
        proof {
            assert(x@ == xv);
        }
        let mut p: usize = 0;
        loop
            invariant
                p <= r@.len(),
                x@ == xv,
                forall|q: int| 0 <= q < p ==> lex_le((#[trigger] r@[q])@, xv),
            ensures
                p <= r@.len(),
                forall|q: int| 0 <= q < p ==> lex_le((#[trigger] r@[q])@, xv),
                p == r@.len() || !lex_le(r@[p as int]@, xv),
            decreases r@.len() - p,
        {
            if p >= r.len() {
                break;
            }
            if !str_le(r[p].as_str(), x.as_str()) {
                break;
            }
            p = p + 1;
        }
        let ghost pre = r@;
        let ghost prev = word_views(pre);
        let ghost xstr = x;
        r.insert(p, x);
        proof {
            broadcast use vstd::seq_lib::group_to_multiset_ensures;

            let pi = p as int;
            pre.insert_ensures(pi, xstr);
            prev.insert_ensures(pi, xv);
            let t = prev.insert(pi, xv);
            assert(r@ == pre.insert(pi, xstr));
            assert forall|q: int| 0 <= q < t.len() implies #[trigger] word_views(r@)[q]
                == t[q] by {
                if q < pi {
                    assert(pre.insert(pi, xstr)[q] == pre[q]);
                    assert(t[q] == prev[q]);
                } else if q == pi {
                    assert(pre.insert(pi, xstr)[q] == xstr);
                    assert(t[q] == xv);
                } else {
                    assert(pre.insert(pi, xstr)[q] == pre[q - 1]);
                    assert(t[q] == prev[q - 1]);
                }
            }
            assert(word_views(r@) =~= t);
            // The inserted sequence's multiset is the old one plus the word.
            assert(t.remove(pi) =~= prev) by {
                t.remove_ensures(pi);
            }
            assert(t[pi] == xv);
            assert(t.contains(xv)) by {
                assert(t[pi] == xv);
            }
            assert(t.remove(pi).to_multiset() =~= t.to_multiset().remove(t[pi]));
            assert(prev.to_multiset() =~= t.to_multiset().remove(xv));
            assert(t.to_multiset().count(xv) > 0);
            assert(t.to_multiset() =~= prev.to_multiset().insert(xv));
            // The processed prefix grew by the same word.
            assert(word_views(v@.take(idx as int + 1)) =~= word_views(v@.take(idx as int)).push(
                xv,
            )) by {
                assert(v@.take(idx as int + 1).drop_last() =~= v@.take(idx as int));
                assert(v@.take(idx as int + 1).last() == v@[idx as int]);
                assert forall|q: int| 0 <= q < idx + 1 implies #[trigger] word_views(
                    v@.take(idx as int + 1),
                )[q] == word_views(v@.take(idx as int)).push(xv)[q] by {
                    if q < idx {
                        assert(v@.take(idx as int + 1)[q] == v@[q]);
                        assert(v@.take(idx as int)[q] == v@[q]);
                    } else {
                        assert(v@.take(idx as int + 1)[q] == v@[idx as int]);
                    }
                }
            }
            assert(word_views(v@.take(idx as int + 1)).to_multiset() =~= word_views(
                v@.take(idx as int),
            ).to_multiset().insert(xv));
            // The result stays sorted around the insertion point.
            if pi < prev.len() {
                lemma_lex_total(prev[pi], xv);
            }
            assert forall|a: int, b: int| 0 <= a < b < t.len() implies lex_le(t[a], t[b]) by {
                if b < pi {
                    assert(t[a] == prev[a] && t[b] == prev[b]);
                } else if b == pi {
                    assert(t[a] == prev[a] && t[b] == xv);
                    assert(lex_le(prev[a], xv));
                } else {
                    assert(t[b] == prev[b - 1]);
                    if a < pi {
                        assert(t[a] == prev[a]);
                        if a == b - 1 {
                        } else {
                            assert(lex_le(prev[a], prev[b - 1]));
                        }
                    } else if a == pi {
                        assert(t[a] == xv);
                        assert(!lex_le(prev[pi], xv));
                        assert(lex_le(xv, prev[pi]));
                        if pi == b - 1 {
                        } else {
                            assert(lex_le(prev[pi], prev[b - 1]));
                            lemma_lex_trans(xv, prev[pi], prev[b - 1]);
                        }
                    } else {
                        assert(t[a] == prev[a - 1]);
                        assert(lex_le(prev[a - 1], prev[b - 1]));
                    }
                }
            }
        }
        idx = idx + 1;
    }
    proof {
        assert(v@.take(n as int) =~= v@);
    }
    r
}

/// The words joined with `, `.
pub open spec fn join_words(ws: Seq<Seq<char>>) -> Seq<char>
    decreases ws.len(),
{
    if ws.len() == 0 {
        Seq::empty()
    } else if ws.len() == 1 {
        ws[0]
    } else {
        join_words(ws.drop_last()) + ", "@ + ws.last()
    }
}

/// The words grouped `n` to a line (at least one per line), each group
/// joined with `, `.
pub open spec fn chunk_lines(ws: Seq<Seq<char>>, n: int) -> Seq<Seq<char>>
    decreases ws.len(),
{
    if ws.len() == 0 {
        Seq::empty()
    } else {
        let m = if n < 1 {
            1
        } else if n > ws.len() {
            ws.len() as int
        } else {
            n
        };
        seq![join_words(ws.take(m))] + chunk_lines(ws.skip(m), n)
    }
}

/// A line wrapped in the color's escape code and the reset code.
pub open spec fn colored_line(c: Color, line: Seq<char>) -> Seq<char> {
    ansi_code_of(c) + line + "\x1b[0m"@
}

/// Whether `lines` renders the word list `ws` grouped `n` to a line, each
/// line wrapped in the color.
pub open spec fn sorted_render(lines: Seq<String>, ws: Seq<Seq<char>>, c: Color, n: int) -> bool {
    lines.len() == chunk_lines(ws, n).len() && (forall|i: int|
        0 <= i < lines.len() ==> (#[trigger] lines[i])@ == colored_line(c, chunk_lines(ws, n)[i]))
}

/// Whether the stage's rules ask for sorted output.
pub open spec fn wants_sort(s: Option<SortRules>) -> bool {
    s matches Some(r) && r.sorting
}

/// The items-per-line the stage's rules ask for.
pub open spec fn spec_ipl(s: Option<SortRules>) -> int {
    match s {
        Some(r) => r.items_per_line as int,
        None => 1,
    }
}

/// Renders one stage's captured output for printing: nothing for empty
/// output; with sorting asked for, the output's whitespace-separated words
/// in lexicographic order, grouped items-per-line to a printed line; else
/// the whole output as one line. Every line is wrapped in the stage's
/// color followed by the reset code.
pub fn format_stage_output(stage: &Stage, stdout: &str) -> (lines: Vec<String>)
    ensures
        stdout@.len() == 0 ==> lines@.len() == 0,
        stdout@.len() > 0 && !wants_sort(stage.sorted) ==> lines@.len() == 1 && lines@[0]@
            == colored_line(stage.color, stdout@),
        stdout@.len() > 0 && wants_sort(stage.sorted) ==> (exists|ws: Seq<Seq<char>>|
            #![auto]
            ws.to_multiset() == split_whitespace_spec(stdout@).to_multiset() && words_sorted(ws)
                && sorted_render(lines@, ws, stage.color, spec_ipl(stage.sorted))),
{
    let mut lines: Vec<String> = Vec::new();
    let slen = stdout.unicode_len();
    if slen == 0 {
        return lines;
    }
    let do_sort = match &stage.sorted {
        Some(r) => r.sorting,
        None => false,
    };
    if !do_sort {
        let mut line = stage.color.ansi_code();
        line.append(stdout);
        line.append("\x1b[0m");
        proof {
            assert(line@ =~= colored_line(stage.color, stdout@));
        }
        lines.push(line);
        return lines;
    }
    let ipl = match &stage.sorted {
        Some(r) => r.items_per_line,
        None => 1,
    };
    let words = split_whitespace(stdout);
    let sorted = sort_strings(words);
    let ghost ws = word_views(sorted@);
    proof {
        assert(word_views(words@) =~= split_whitespace_spec(stdout@));
        assert(ws.skip(0) =~= ws);
    }
    let n: usize = if ipl < 1 {
        1
    } else {
        ipl
    };
    let total = sorted.len();
    let ghost mut done: Seq<Seq<char>> = Seq::empty();
    proof {
        assert(done + chunk_lines(ws, ipl as int) =~= chunk_lines(ws, ipl as int));
    }
    let mut q: usize = 0;
    while q < total
        invariant
            total == sorted@.len(),
            ws == word_views(sorted@),
            q <= total,
            n == if (ipl as int) < 1 {
                1int
            } else {
                ipl as int
            },
            lines@.len() == done.len(),
            forall|i: int|
                0 <= i < done.len() ==> (#[trigger] lines@[i])@ == colored_line(
                    stage.color,
                    done[i],
                ),
            chunk_lines(ws, ipl as int) == done + chunk_lines(ws.skip(q as int), ipl as int),
        decreases total - q,
    {
        let remaining = total - q;
        let k: usize = if n < remaining {
            n
        } else {
            remaining
        };
        let ghost seg = ws.skip(q as int).take(k as int);
        let mut body = String::new();
        let mut t: usize = 0;
        while t < k
            invariant
                total == sorted@.len(),
                ws == word_views(sorted@),
                q + k <= total,
                k >= 1,
                t <= k,
                seg == ws.skip(q as int).take(k as int),
                seg.len() == k,
                body@ == join_words(seg.take(t as int)),
            decreases k - t,
        {
            if t > 0 {
                body.append(", ");
            }
            body.append(sorted[q + t].as_str());
            proof {
                assert(seg[t as int] == ws[q + t]);
                assert(ws[q + t] == sorted@[q + t]@);
                assert(seg.take(t as int + 1).drop_last() =~= seg.take(t as int));
                assert(seg.take(t as int + 1).last() == seg[t as int]);
                if t == 0 {
                    assert(seg.take(1)[0] == seg[0]);
                    assert(join_words(seg.take(1)) == seg[0]);
                }
            }
            t = t + 1;
        }
        proof {
            assert(seg.take(k as int) =~= seg);
        }
        let mut line = stage.color.ansi_code();
        line.append(body.as_str());
        line.append("\x1b[0m");
        proof {
            assert(line@ =~= colored_line(stage.color, join_words(seg)));
            let rem = ws.skip(q as int);
            assert(rem.len() == total - q);
            let m = if (ipl as int) < 1 {
                1int
            } else if ipl > rem.len() {
                rem.len() as int
            } else {
                ipl as int
            };
            assert(m == k as int);
            assert(chunk_lines(rem, ipl as int) == seq![join_words(rem.take(m))] + chunk_lines(
                rem.skip(m),
                ipl as int,
            ));
            assert(rem.skip(k as int) =~= ws.skip(q as int + k as int));
            let old_done = done;
            done = done.push(join_words(seg));
            assert(old_done + (seq![join_words(seg)] + chunk_lines(
                ws.skip(q as int + k as int),
                ipl as int,
            )) =~= done + chunk_lines(ws.skip(q as int + k as int), ipl as int));
            assert(done[old_done.len() as int] == join_words(seg));
            assert(forall|i: int|
                0 <= i < old_done.len() ==> #[trigger] done[i] == old_done[i]);
        }
        lines.push(line);
        q = q + k;
    }
    proof {
        assert(ws.skip(total as int).len() == 0);
        assert(chunk_lines(ws.skip(total as int), ipl as int) =~= Seq::<Seq<char>>::empty());
        assert(done + Seq::<Seq<char>>::empty() =~= done);
        assert(sorted_render(lines@, ws, stage.color, ipl as int));
    }
    lines
}

} // verus!
