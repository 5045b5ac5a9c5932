//! Turning a resolved configuration into a reconciliation plan of git
//! commands.
//!
//! The caller locates the external git program, lists the live store with
//! `git config --list` where needed, and hands the output lines in; the
//! plan returned here is then performed in order, aborting on the first
//! failing command. With `strictGit` set, every live key outside the
//! `core.`, `remote.` and `branch.` namespaces is first reset to a known
//! empty state; the desired settings are then applied as "unset all, then
//! set", so that a run never accumulates duplicate multi-valued entries.

use vstd::prelude::*;

use crate::cfg::Config;

verus! {

/// One git configuration command.
#[derive(Debug, PartialEq, Eq)]
pub enum GitCmd {
    /// `git config --unset-all <key>`.
    UnsetAll { key: String },
    /// `git config <key> <value>`.
    SetValue { key: String, value: String },
}

/// The mathematical content of one git command.
pub ghost enum GitCmdView {
    UnsetAll { key: Seq<char> },
    SetValue { key: Seq<char>, value: Seq<char> },
}

impl View for GitCmd {
    type V = GitCmdView;

    open spec fn view(&self) -> GitCmdView {
        match self {
            GitCmd::UnsetAll { key } => GitCmdView::UnsetAll { key: key@ },
            GitCmd::SetValue { key, value } => GitCmdView::SetValue { key: key@, value: value@ },
        }
    }
}

/// The key a command touches.
pub open spec fn cmd_key(c: GitCmdView) -> Seq<char> {
    match c {
        GitCmdView::UnsetAll { key } => key,
        GitCmdView::SetValue { key, value: _ } => key,
    }
}

/// Whether `p` is a prefix of `s`.
pub open spec fn has_prefix(s: Seq<char>, p: Seq<char>) -> bool {
    p.len() <= s.len() && s.take(p.len() as int) == p
}

/// Keys in git's own operational namespaces, never sanitized.
pub open spec fn protected_key(k: Seq<char>) -> bool {
    has_prefix(k, "core."@) || has_prefix(k, "remote."@) || has_prefix(k, "branch."@)
}

/// The position of the first `=` in a line, or the line's length if none.
pub open spec fn eq_pos(line: Seq<char>) -> int
    decreases line.len(),
{
    if line.len() == 0 {
        0
    } else if line.first() == '=' {
        0
    } else {
        1 + eq_pos(line.drop_first())
    }
}

/// The configuration key named by one `git config --list` output line:
/// what stands before the first `=`; absent where the line has no `=`.
pub open spec fn line_key(line: Seq<char>) -> Option<Seq<char>> {
    if eq_pos(line) < line.len() {
        Some(line.take(eq_pos(line)))
    } else {
        None
    }
}

/// `eq_pos` points at the first `=` of the line, if the line has one.
pub proof fn lemma_eq_pos(line: Seq<char>)
    ensures
        0 <= eq_pos(line) <= line.len(),
        eq_pos(line) < line.len() ==> line[eq_pos(line)] == '=',
        forall|j: int| 0 <= j < eq_pos(line) ==> line[j] != '=',
    decreases line.len(),
{
    if line.len() > 0 && line.first() != '=' {
        lemma_eq_pos(line.drop_first());
        assert forall|j: int| 0 <= j < eq_pos(line) implies line[j] != '=' by {
            if j > 0 {
                assert(line.drop_first()[j - 1] == line[j]);
            }
        }
    }
}

/// The sanitize commands for the lines of `git config --list`: for every
/// line naming a key outside the protected namespaces, unset all its values
/// and set it to the empty value; protected and keyless lines contribute
/// nothing.
pub open spec fn sanitize_cmds(lines: Seq<Seq<char>>) -> Seq<GitCmdView>
    decreases lines.len(),
{
    if lines.len() == 0 {
        Seq::empty()
    } else {
        sanitize_cmds(lines.drop_last()) + match line_key(lines.last()) {
            Some(k) => if !protected_key(k) {
                seq![
                    GitCmdView::UnsetAll { key: k },
                    GitCmdView::SetValue { key: k, value: Seq::empty() },
                ]
            } else {
                Seq::empty()
            },
            None => Seq::empty(),
        }
    }
}

/// The commands applying the desired settings, pair by pair in storage
/// order: unset all values of the key, then set the desired one.
pub open spec fn settings_cmds(pairs: Seq<(Seq<char>, Seq<char>)>) -> Seq<GitCmdView>
    decreases pairs.len(),
{
    if pairs.len() == 0 {
        Seq::empty()
    } else {
        settings_cmds(pairs.drop_last()) + seq![
            GitCmdView::UnsetAll { key: pairs.last().0 },
            GitCmdView::SetValue { key: pairs.last().0, value: pairs.last().1 },
        ]
    }
}

/// The whole plan for a resolved configuration, given the `--list` lines.
pub open spec fn plan_cmds(
    strict_git: bool,
    lines: Seq<Seq<char>>,
    pairs: Seq<(Seq<char>, Seq<char>)>,
) -> Seq<GitCmdView> {
    (if strict_git {
        sanitize_cmds(lines)
    } else {
        Seq::empty()
    }) + settings_cmds(pairs)
}

/// Sanitization never touches a protected key, whatever the store lists.
pub proof fn lemma_sanitize_spares_protected(lines: Seq<Seq<char>>)
    ensures
        forall|i: int|
            0 <= i < sanitize_cmds(lines).len() ==> !protected_key(
                #[trigger] cmd_key(sanitize_cmds(lines)[i]),
            ),
    decreases lines.len(),
{
    if lines.len() > 0 {
        lemma_sanitize_spares_protected(lines.drop_last());
        let pre = sanitize_cmds(lines.drop_last());
        match line_key(lines.last()) {
            Some(k) => {
                if !protected_key(k) {
                    let tail = seq![
                        GitCmdView::UnsetAll { key: k },
                        GitCmdView::SetValue { key: k, value: Seq::empty() },
                    ];
                    assert(sanitize_cmds(lines) == pre + tail);
                    assert forall|i: int|
                        0 <= i < sanitize_cmds(lines).len() implies !protected_key(
                        cmd_key(sanitize_cmds(lines)[i]),
                    ) by {
                        if i < pre.len() {
                            assert(sanitize_cmds(lines)[i] == pre[i]);
                        } else {
                            assert(sanitize_cmds(lines)[i] == tail[i - pre.len()]);
                            assert(cmd_key(sanitize_cmds(lines)[i]) == k);
                        }
                    }
                } else {
                    assert(sanitize_cmds(lines) =~= pre);
                }
            },
            None => {
                assert(sanitize_cmds(lines) =~= pre);
            },
        }
    }
}

/// Every settings command's key is one of the settings keys.
pub proof fn lemma_settings_cmds_keys(pairs: Seq<(Seq<char>, Seq<char>)>)
    ensures
        forall|i: int|
            0 <= i < settings_cmds(pairs).len() ==> exists|j: int|
                0 <= j < pairs.len() && #[trigger] cmd_key(settings_cmds(pairs)[i]) == pairs[j].0,
    decreases pairs.len(),
{
    if pairs.len() > 0 {
        lemma_settings_cmds_keys(pairs.drop_last());
        assert forall|i: int| 0 <= i < settings_cmds(pairs).len() implies exists|j: int|
            0 <= j < pairs.len() && #[trigger] cmd_key(settings_cmds(pairs)[i]) == pairs[j].0 by {
            if i < settings_cmds(pairs.drop_last()).len() {
                let j = choose|j: int|
                    0 <= j < pairs.drop_last().len() && cmd_key(
                        settings_cmds(pairs.drop_last())[i],
                    ) == pairs.drop_last()[j].0;
                assert(pairs.drop_last()[j] == pairs[j]);
            } else {
                assert(cmd_key(settings_cmds(pairs)[i]) == pairs[pairs.len() - 1].0);
            }
        }
    }
}

/// Where no settings key lies in a protected namespace, no command of the
/// whole plan touches a protected key.
pub proof fn lemma_plan_spares_protected(
    strict_git: bool,
    lines: Seq<Seq<char>>,
    pairs: Seq<(Seq<char>, Seq<char>)>,
)
    requires
        forall|j: int| 0 <= j < pairs.len() ==> !protected_key(#[trigger] pairs[j].0),
    ensures
        forall|i: int|
            0 <= i < plan_cmds(strict_git, lines, pairs).len() ==> !protected_key(
                #[trigger] cmd_key(plan_cmds(strict_git, lines, pairs)[i]),
            ),
{
    lemma_sanitize_spares_protected(lines);
    lemma_settings_cmds_keys(pairs);
    let head = if strict_git {
        sanitize_cmds(lines)
    } else {
        Seq::<GitCmdView>::empty()
    };
    assert forall|i: int| 0 <= i < plan_cmds(strict_git, lines, pairs).len() implies !protected_key(
        cmd_key(plan_cmds(strict_git, lines, pairs)[i]),
    ) by {
        if i < head.len() {
            assert(plan_cmds(strict_git, lines, pairs)[i] == head[i]);
        } else {
            assert(plan_cmds(strict_git, lines, pairs)[i] == settings_cmds(pairs)[i - head.len()]);
        }
    }
}

/// The first `=` of a line, if any.
fn find_first_eq(line: &str) -> (r: Option<usize>)
    ensures
        match r {
            Some(i) => {
                &&& i < line@.len()
                &&& line@[i as int] == '='
                &&& forall|j: int| 0 <= j < i ==> line@[j] != '='
                &&& eq_pos(line@) == i
            },
            None => {
                &&& forall|j: int| 0 <= j < line@.len() ==> line@[j] != '='
                &&& eq_pos(line@) == line@.len()
            },
        },
{
    let n = line.unicode_len();
    let mut i: usize = 0;
    while i < n
        invariant
            n == line@.len(),
            i <= n,
            forall|j: int| 0 <= j < i ==> line@[j] != '=',
        decreases n - i,
    {
        if line.get_char(i) == '=' {
            proof {
                lemma_eq_pos(line@);
            }
            return Some(i);
        }
        i += 1;
    }
    proof {
        lemma_eq_pos(line@);
    }
    None
}

/// Whether `p` begins `s`.
fn str_has_prefix(s: &str, p: &str) -> (r: bool)
    ensures
        r == has_prefix(s@, p@),
{
    let n = p.unicode_len();
    if n > s.unicode_len() {
        return false;
    }
    let mut i: usize = 0;
    while i < n
        invariant
            n == p@.len(),
            n <= s@.len(),
            i <= n,
            forall|j: int| 0 <= j < i ==> s@[j] == p@[j],
        decreases n - i,
    {
        if s.get_char(i) != p.get_char(i) {
            proof {
                assert(s@.take(n as int)[i as int] != p@[i as int]);
            }
            return false;
        }
        i += 1;
    }
    proof {
        assert(s@.take(n as int) =~= p@);
    }
    true
}

/// Whether a key lies in one of git's own operational namespaces.
fn is_protected_key(key: &str) -> (r: bool)
    ensures
        r == protected_key(key@),
{
    str_has_prefix(key, "core.") || str_has_prefix(key, "remote.") || str_has_prefix(
        key,
        "branch.",
    )
}

impl Config {
    /// The reconciliation plan against the live git store, whose current
    /// state is given as the output lines of `git config --list`. The lines
    /// only matter — and only need to be fetched — where `strictGit` is set.
    pub fn apply_plan(&self, list_lines: &Vec<String>) -> (r: Vec<GitCmd>)
        ensures
            r@.map_values(|c: GitCmd| c@) == plan_cmds(
                self.strict_git,
                list_lines@.map_values(|l: String| l@),
                self.config.pairs(),
            ),
    {
        let ghost lines = list_lines@.map_values(|l: String| l@);
        let mut plan: Vec<GitCmd> = Vec::new();
        if self.strict_git {
            let n = list_lines.len();
            let mut i: usize = 0;
            while i < n
                invariant
                    lines == list_lines@.map_values(|l: String| l@),
                    n == list_lines@.len(),
                    i <= n,
                    plan@.map_values(|c: GitCmd| c@) == sanitize_cmds(lines.take(i as int)),
                decreases n - i,
            {
                proof {
                    assert(lines.take(i as int + 1).drop_last() =~= lines.take(i as int));
                    assert(lines.take(i as int + 1).last() == lines[i as int]);
                    assert(lines[i as int] == list_lines@[i as int]@);
                }
                let line = &list_lines[i];
                if let Some(p) = find_first_eq(line.as_str()) {
                    let key = line.as_str().substring_char(0, p);
                    proof {
                        assert(key@ =~= line_key(lines[i as int])->0);
                    }
                    if !is_protected_key(key) {
                        plan.push(GitCmd::UnsetAll { key: String::from_str(key) });
                        plan.push(GitCmd::SetValue { key: String::from_str(key), value: String::new() });
                    }
                }
                proof {
                    assert(plan@.map_values(|c: GitCmd| c@) =~= sanitize_cmds(
                        lines.take(i as int + 1),
                    ));
                }
                i += 1;
            }
            proof {
                assert(lines.take(n as int) =~= lines);
            }
        }
        let ghost sanitize_part = plan@.map_values(|c: GitCmd| c@);
        let m = self.config.entries.len();
        let mut j: usize = 0;
        while j < m
            invariant
                m == self.config.entries@.len(),
                j <= m,
                sanitize_part == if self.strict_git {
                    sanitize_cmds(list_lines@.map_values(|l: String| l@))
                } else {
                    Seq::<GitCmdView>::empty()
                },
                plan@.map_values(|c: GitCmd| c@) == sanitize_part + settings_cmds(
                    self.config.pairs().take(j as int),
                ),
            decreases m - j,
        {
            proof {
                let ps = self.config.pairs();
                assert(ps.take(j as int + 1).drop_last() =~= ps.take(j as int));
                assert(ps.take(j as int + 1).last() == ps[j as int]);
                assert(ps[j as int] == (
                    self.config.entries@[j as int].key@,
                    self.config.entries@[j as int].value@,
                ));
                assert(settings_cmds(ps.take(j as int + 1)) == settings_cmds(ps.take(j as int))
                    + seq![
                    GitCmdView::UnsetAll { key: ps[j as int].0 },
                    GitCmdView::SetValue { key: ps[j as int].0, value: ps[j as int].1 },
                ]);
            }
            let ghost before = plan@;
            let key = self.config.entries[j].key.clone();
            let value = self.config.entries[j].value.clone();
            plan.push(GitCmd::UnsetAll { key });
            let key_again = self.config.entries[j].key.clone();
            plan.push(GitCmd::SetValue { key: key_again, value });
            proof {
                let ps = self.config.pairs();
                let two = seq![
                    GitCmdView::UnsetAll { key: ps[j as int].0 },
                    GitCmdView::SetValue { key: ps[j as int].0, value: ps[j as int].1 },
                ];
                assert(plan@.len() == before.len() + 2);
                assert(plan@[plan@.len() - 2]@ == two[0]);
                assert(plan@[plan@.len() - 1]@ == two[1]);
                assert forall|i: int| #![trigger plan@[i]]
                    0 <= i < plan@.len() implies plan@.map_values(|c: GitCmd| c@)[i] == (
                before.map_values(|c: GitCmd| c@) + two)[i] by {
                    assert(plan@.map_values(|c: GitCmd| c@)[i] == plan@[i]@);
                    assert(before.map_values(|c: GitCmd| c@).len() == before.len());
                    if i < before.len() {
                        assert(plan@[i] == before[i]);
                        assert(before.map_values(|c: GitCmd| c@)[i] == before[i]@);
                    }
                }
                assert(plan@.map_values(|c: GitCmd| c@) =~= before.map_values(|c: GitCmd| c@)
                    + two);
                assert(plan@.map_values(|c: GitCmd| c@) =~= sanitize_part + settings_cmds(
                    ps.take(j as int + 1),
                ));
            }
            j += 1;
        }
        proof {
            assert(self.config.pairs().take(m as int) =~= self.config.pairs());
            assert(plan@.map_values(|c: GitCmd| c@) =~= plan_cmds(
                self.strict_git,
                list_lines@.map_values(|l: String| l@),
                self.config.pairs(),
            ));
        }
        plan
    }
}

} // verus!
