//! Finding dsh and choosing among what is found, judging the environment, and the commands
//! that install dsh.

use vstd::prelude::*;

use crate::lines;
use crate::order;
use crate::order::Rank;
use crate::outside_text;
use crate::text;

verus! {

/// Where packages come from.
pub const NPM_REGISTRY: &'static str = "https://registry.npmjs.org";

/// Where packages come from otherwise.
pub const NPM_MIRROR: &'static str = "https://registry.npmmirror.com";

/// The version of dsh that is known to work.
pub const DSH_PKG: &'static str = "@deepseek-ai/dsh@0.1.1-rc.2";

/// What running a program gave: what it wrote, and whether it succeeded.
pub struct RunOutput {
    pub stdout: Vec<u8>,
    pub success: bool,
}

/// What a program that succeeded wrote, without white space around it; nothing where that
/// is empty.
pub open spec fn told(o: Option<RunOutput>) -> Option<Seq<char>> {
    match o {
        Some(x) => {
            let s = text::trimmed(outside_text::lossy(x.stdout@));
            if x.success && s.len() > 0 {
                Some(s)
            } else {
                None
            }
        },
        None => None,
    }
}

/// The version that dsh tells.
pub fn run_dsh_version(o: &Option<RunOutput>) -> (r: Option<String>)
    ensures
        match r {
            Some(s) => told(*o) == Some(s@),
            None => told(*o) is None,
        },
{
    match o {
        Some(x) => {
            if !x.success {
                return None;
            }
            let s = text::trim(outside_text::lossy_text(&x.stdout).as_str());
            if text::char_count(s.as_str()) == 0 {
                None
            } else {
                Some(s)
            }
        },
        None => None,
    }
}

/// The version that Node tells, "未知" where it tells none.
pub fn current_node_version(o: &Option<RunOutput>) -> (r: String)
    ensures
        r@ == match told(*o) {
            Some(s) => s,
            None => "未知"@,
        },
{
    match run_dsh_version(o) {
        Some(s) => s,
        None => "未知".to_owned(),
    }
}

/// The path on the last line that the shell wrote.
pub open spec fn shell_path(o: Option<RunOutput>) -> Option<Seq<char>> {
    match o {
        Some(x) => {
            let ls = lines::lines_of(outside_text::lossy(x.stdout@));
            if x.success && ls.len() > 0 && text::trimmed(ls.last()).len() > 0 {
                Some(text::trimmed(ls.last()))
            } else {
                None
            }
        },
        None => None,
    }
}

/// The path on the last line that the shell wrote.
pub fn find_dsh_via_shell(o: &Option<RunOutput>) -> (r: Option<String>)
    ensures
        match r {
            Some(s) => shell_path(*o) == Some(s@),
            None => shell_path(*o) is None,
        },
{
    match o {
        Some(x) => {
            if !x.success {
                return None;
            }
            let ls = lines::split_lines(outside_text::lossy_text(&x.stdout).as_str());
            let ghost all = lines::texts(ls@);
            if ls.len() == 0 {
                return None;
            }
            assert(all.last() == ls@[ls@.len() - 1]@);
            let s = text::trim(ls[ls.len() - 1].as_str());
            if text::char_count(s.as_str()) == 0 {
                None
            } else {
                Some(s)
            }
        },
        None => None,
    }
}

/// The script that asks the shell for dsh.
pub fn shell_script() -> (r: String)
    ensures
        r@ == "export NVM_DIR=\"$HOME/.nvm\"\n[ -s \"$NVM_DIR/nvm.sh\" ] && . \"$NVM_DIR/nvm.sh\"\ncommand -v dsh"@,
{
    "export NVM_DIR=\"$HOME/.nvm\"\n[ -s \"$NVM_DIR/nvm.sh\" ] && . \"$NVM_DIR/nvm.sh\"\ncommand -v dsh".to_owned()
}

/// The search path with the directory `dir` in front.
pub fn search_path(dir: &str, existing: Option<String>) -> (r: String)
    ensures
        r@ == match existing {
            Some(p) => dir@ + ":"@ + p@,
            None => dir@,
        },
{
    match existing {
        Some(p) => text::joined_three(dir, ":", p.as_str()),
        None => dir.to_owned(),
    }
}

/// The pieces of a text between the chars `c`.
pub open spec fn pieces(s: Seq<char>, c: char) -> Seq<Seq<char>>
    decreases s.len(),
{
    let n = text::cut(s, c);
    if n < 0 || n >= s.len() {
        seq![s]
    } else {
        seq![s.take(n)] + pieces(s.skip(n + 1), c)
    }
}

/// The number that the piece at `i` is, 0 where it is none.
pub open spec fn piece_number(ps: Seq<Seq<char>>, i: int) -> nat {
    if 0 <= i < ps.len() {
        match text::parsed_number(ps[i], u64::MAX as nat) {
            Some(n) => n,
            None => 0,
        }
    } else {
        0
    }
}

/// The first three numbers of a version such as `v22.22.3`.
pub open spec fn version_numbers(v: Seq<char>) -> (nat, nat, nat) {
    let ps = pieces(text::stripped_start(v, 'v'), '.');
    (piece_number(ps, 0), piece_number(ps, 1), piece_number(ps, 2))
}

/// The number that a text is, 0 where it is none.
fn number_or_zero(s: &str) -> (r: u64)
    ensures
        r == piece_number(seq![s@], 0),
{
    match text::parse_number(s, u64::MAX) {
        Some(n) => n,
        None => 0,
    }
}

/// The first piece of a text, and what is behind it where there is more.
fn first_piece(s: &str, c: char) -> (r: (String, Option<String>))
    ensures
        r.0@ == pieces(s@, c)[0],
        match r.1 {
            Some(rest) => pieces(s@, c) == seq![r.0@] + pieces(rest@, c),
            None => pieces(s@, c) == seq![r.0@],
        },
{
    proof {
        text::lemma_cut(s@, c);
    }
    let n = text::cut_at(s, c);
    let end = text::char_count(s);
    if n >= end {
        return (s.to_owned(), None);
    }
    let a = text::slice(s, 0, n);
    let b = text::slice(s, n + 1, end);
    assert(a@ == s@.take(n as int));
    assert(b@ == s@.skip(n + 1));
    (a, Some(b))
}

/// The first three numbers of a version such as `v22.22.3`.
pub fn version_key(v: &str) -> (r: (u64, u64, u64))
    ensures
        (r.0 as nat, r.1 as nat, r.2 as nat) == version_numbers(v@),
{
    let s = text::strip_start(v, 'v');
    let ghost ps = pieces(s@, '.');
    let (a, rest) = first_piece(s.as_str(), '.');
    let major = number_or_zero(a.as_str());
    let rest = match rest {
        Some(t) => t,
        None => {
            return (major, 0, 0);
        },
    };
    let (b, more) = first_piece(rest.as_str(), '.');
    let minor = number_or_zero(b.as_str());
    assert(ps[1] == b@);
    let more = match more {
        Some(t) => t,
        None => {
            assert(ps == seq![a@] + seq![b@]);
            return (major, minor, 0);
        },
    };
    let (c, _) = first_piece(more.as_str(), '.');
    assert(ps[2] == c@);
    (major, minor, number_or_zero(c.as_str()))
}

/// The version at `a` comes in front of that at `b`: it is the higher one, or as high and
/// stands behind it.
pub open spec fn newer(vs: Seq<Seq<char>>, a: int, b: int) -> bool {
    let x = version_numbers(vs[a]);
    let y = version_numbers(vs[b]);
    ||| x.0 > y.0
    ||| x.0 == y.0 && x.1 > y.1
    ||| x.0 == y.0 && x.1 == y.1 && x.2 > y.2
    ||| x == y && a > b
}

/// The positions of versions, the highest first.
pub open spec fn newest_first(o: Seq<usize>, vs: Seq<Seq<char>>) -> bool {
    &&& order::each_once(o, vs.len())
    &&& forall|i: int, j: int|
        0 <= i < j < o.len() ==> newer(vs, #[trigger] o[i] as int, #[trigger] o[j] as int)
}

/// The positions of versions, the highest first.
pub fn order_versions(names: &Vec<String>) -> (r: Vec<usize>)
    ensures
        newest_first(r@, lines::texts(names@)),
{
    let ghost vs = lines::texts(names@);
    let mut ranks: Vec<Rank> = Vec::new();
    let mut i: usize = 0;
    while i < names.len()
        invariant
            i <= names.len(),
            vs == lines::texts(names@),
            ranks.len() == i,
            forall|j: int|
                0 <= j < i ==> version_numbers(vs[j]) == (
                    (#[trigger] ranks@[j]).first as nat,
                    ranks@[j].second as nat,
                    ranks@[j].third as nat,
                ) && ranks@[j].fourth == j,
        decreases names.len() - i,
    {
        assert(vs[i as int] == names@[i as int]@);
        let (a, b, c) = version_key(names[i].as_str());
        ranks.push(Rank { first: a, second: b, third: c, fourth: i as u64 });
        i += 1;
    }
    let r = order::order_desc(&ranks);
    proof {
        assert forall|i: int, j: int| 0 <= i < j < r@.len() implies newer(
            vs,
            #[trigger] r@[i] as int,
            #[trigger] r@[j] as int,
        ) by {
            let a = r@[i] as int;
            let b = r@[j] as int;
            assert(r@[i] != r@[j]);
            assert(!order::rank_less(ranks@[a], ranks@[b]));
            assert(ranks@[a].fourth == a && ranks@[b].fourth == b);
        }
    }
    r
}

/// Where dsh may stand.
pub enum Place {
    /// Where the shell finds it.
    Shell,
    /// With the Node version at this position.
    Nvm(usize),
    /// At this path under the home directory.
    Home(&'static str),
    /// At this path.
    Fixed(&'static str),
}

/// Where dsh may stand.
pub enum PlaceView {
    Shell,
    Nvm(int),
    Home(Seq<char>),
    Fixed(Seq<char>),
}

impl View for Place {
    type V = PlaceView;

    open spec fn view(&self) -> PlaceView {
        match self {
            Place::Shell => PlaceView::Shell,
            Place::Nvm(i) => PlaceView::Nvm(*i as int),
            Place::Home(p) => PlaceView::Home(p@),
            Place::Fixed(p) => PlaceView::Fixed(p@),
        }
    }
}

pub open spec fn places(v: Seq<Place>) -> Seq<PlaceView> {
    v.map_values(|p: Place| p@)
}

/// The places under the home directory.
pub open spec fn home_places() -> Seq<PlaceView> {
    seq![
        PlaceView::Home(".local/bin/dsh"@),
        PlaceView::Home("Library/pnpm/dsh"@),
        PlaceView::Home(".volta/bin/dsh"@),
    ]
}

/// The places that do not depend on the user.
pub open spec fn fixed_places() -> Seq<PlaceView> {
    seq![
        PlaceView::Fixed("/opt/homebrew/bin/dsh"@),
        PlaceView::Fixed("/opt/homebrew/opt/node@22/bin/dsh"@),
        PlaceView::Fixed("/usr/local/bin/dsh"@),
        PlaceView::Fixed("/usr/local/opt/node@22/bin/dsh"@),
    ]
}

/// The order in which dsh is looked for: where the shell finds it, with the Node versions
/// from the highest down, under the home directory, elsewhere.
pub open spec fn looked_for(
    ps: Seq<PlaceView>,
    shell: bool,
    home: bool,
    versions: Seq<usize>,
) -> bool {
    ps == (if shell {
        seq![PlaceView::Shell]
    } else {
        Seq::empty()
    }) + (if home {
        versions.map_values(|i: usize| PlaceView::Nvm(i as int)) + home_places()
    } else {
        Seq::empty()
    }) + fixed_places()
}

/// The places to look for dsh, in order. Without a home directory there are no Node
/// versions either.
pub fn find_dsh_candidates(shell: bool, home: bool, names: &Vec<String>) -> (r: Vec<Place>)
    ensures
        exists|o: Seq<usize>|
            #[trigger] newest_first(o, lines::texts(names@)) && looked_for(
                places(r@),
                shell,
                home,
                o,
            ),
{
    let o = order_versions(names);
    let mut out: Vec<Place> = Vec::new();
    if shell {
        out.push(Place::Shell);
    }
    let ghost head = places(out@);
    if home {
        let mut i: usize = 0;
        proof {
            assert(o@.take(0).map_values(|i: usize| PlaceView::Nvm(i as int)).len() == 0);
            assert(places(out@) == head + o@.take(0).map_values(
                |i: usize| PlaceView::Nvm(i as int),
            ));
        }
        while i < o.len()
            invariant
                i <= o.len(),
                places(out@) == head + o@.take(i as int).map_values(
                    |i: usize| PlaceView::Nvm(i as int),
                ),
            decreases o.len() - i,
        {
            let ghost was = out@;
            out.push(Place::Nvm(o[i]));
            proof {
                assert(places(out@) == places(was).push(PlaceView::Nvm(o@[i as int] as int)));
                assert(o@.take(i + 1) == o@.take(i as int).push(o@[i as int]));
                assert(o@.take(i + 1).map_values(|i: usize| PlaceView::Nvm(i as int))
                    == o@.take(i as int).map_values(|i: usize| PlaceView::Nvm(i as int)).push(
                    PlaceView::Nvm(o@[i as int] as int),
                ));
            }
            i += 1;
        }
        assert(o@.take(i as int) == o@);
        let ghost mid = places(out@);
        out.push(Place::Home(".local/bin/dsh"));
        out.push(Place::Home("Library/pnpm/dsh"));
        out.push(Place::Home(".volta/bin/dsh"));
        proof {
            let nvm = o@.map_values(|i: usize| PlaceView::Nvm(i as int));
            assert(places(out@) == mid + home_places());
            assert(places(out@) == head + (nvm + home_places()));
        }
    }
    let ghost most = places(out@);
    out.push(Place::Fixed("/opt/homebrew/bin/dsh"));
    out.push(Place::Fixed("/opt/homebrew/opt/node@22/bin/dsh"));
    out.push(Place::Fixed("/usr/local/bin/dsh"));
    out.push(Place::Fixed("/usr/local/opt/node@22/bin/dsh"));
    proof {
        assert(places(out@) == most + fixed_places());
        assert(head == (if shell {
            seq![PlaceView::Shell]
        } else {
            Seq::empty()
        }));
        assert(head + Seq::<PlaceView>::empty() == head);
        assert(looked_for(places(out@), shell, home, o@));
    }
    out
}

/// The positions of the first `n` places that count: where the shell finds dsh, and where
/// there is a file.
pub open spec fn counted(ps: Seq<PlaceView>, file: Seq<bool>, n: int) -> Seq<usize>
    decreases n,
{
    if n <= 0 {
        Seq::empty()
    } else if ps[n - 1] is Shell || file[n - 1] {
        counted(ps, file, n - 1).push((n - 1) as usize)
    } else {
        counted(ps, file, n - 1)
    }
}

/// The positions of the places that count, given at which of them there is a file.
pub fn present_places(ps: &Vec<Place>, file: &Vec<bool>) -> (r: Vec<usize>)
    requires
        ps.len() == file.len(),
    ensures
        r@ == counted(places(ps@), file@, ps.len() as int),
{
    let ghost all = places(ps@);
    let mut out: Vec<usize> = Vec::new();
    let mut i: usize = 0;
    while i < ps.len()
        invariant
            i <= ps.len(),
            ps.len() == file.len(),
            all == places(ps@),
            out@ == counted(all, file@, i as int),
        decreases ps.len() - i,
    {
        assert(all[i as int] == ps@[i as int]@);
        let by_shell = match ps[i] {
            Place::Shell => true,
            _ => false,
        };
        if by_shell || file[i] {
            out.push(i);
        }
        i += 1;
    }
    out
}

/// What stands behind the last `c`, all where there is none.
pub open spec fn behind_last(s: Seq<char>, c: char) -> Seq<char>
    decreases s.len(),
{
    if s.len() == 0 || s.last() == c {
        Seq::empty()
    } else {
        behind_last(s.drop_last(), c).push(s.last())
    }
}

/// The version that is looked for: what stands behind the last `@` in the package.
pub open spec fn target() -> Seq<char> {
    text::trimmed(behind_last(DSH_PKG@, '@'))
}

fn target_version() -> (r: String)
    ensures
        r@ == target(),
{
    let v = text::chars_of(DSH_PKG);
    let mut n: usize = v.len();
    proof {
        assert(v@.take(n as int) == v@);
        assert(v@.skip(n as int) == Seq::<char>::empty());
        assert(behind_last(v@, '@') == behind_last(v@.take(n as int), '@') + v@.skip(n as int));
    }
    while n > 0 && v[n - 1] != '@'
        invariant
            n <= v.len(),
            behind_last(v@, '@') == behind_last(v@.take(n as int), '@') + v@.skip(n as int),
        decreases n,
    {
        proof {
            let a = v@.take(n as int);
            assert(a.drop_last() == v@.take(n - 1));
            assert(a.last() == v@[n - 1]);
            assert(behind_last(a, '@') + v@.skip(n as int) == behind_last(v@.take(n - 1), '@')
                + v@.skip(n - 1));
        }
        n -= 1;
    }
    assert(behind_last(v@.take(n as int), '@') == Seq::<char>::empty());
    let s = text::text_of(&v, n, v.len());
    assert(s@ == v@.skip(n as int));
    text::trim(s.as_str())
}

/// The version is the one that is looked for.
pub open spec fn is_target(v: Option<String>) -> bool {
    v matches Some(s) && text::trimmed(text::stripped_start(s@, 'v')) == target()
}

/// Which candidate is chosen: the first with the version that is looked for, else the first
/// that runs.
pub open spec fn chosen(vs: Seq<Option<String>>, r: Option<usize>) -> bool {
    match r {
        None => forall|i: int| 0 <= i < vs.len() ==> (#[trigger] vs[i]) is None,
        Some(n) => {
            &&& n < vs.len()
            &&& vs[n as int] is Some
            &&& is_target(vs[n as int]) ==> forall|i: int|
                0 <= i < n ==> !is_target(#[trigger] vs[i])
            &&& !is_target(vs[n as int]) ==> (forall|i: int|
                0 <= i < vs.len() ==> !is_target(#[trigger] vs[i])) && forall|i: int|
                0 <= i < n ==> (#[trigger] vs[i]) is None
        },
    }
}

/// Chooses among candidates by the versions they tell.
pub fn select_dsh(versions: &Vec<Option<String>>) -> (r: Option<usize>)
    ensures
        chosen(versions@, r),
{
    let want = target_version();
    let mut first: Option<usize> = None;
    let mut i: usize = 0;
    while i < versions.len()
        invariant
            i <= versions.len(),
            want@ == target(),
            forall|j: int| 0 <= j < i ==> !is_target(#[trigger] versions@[j]),
            match first {
                None => forall|j: int| 0 <= j < i ==> (#[trigger] versions@[j]) is None,
                Some(n) => n < i && versions@[n as int] is Some && forall|j: int|
                    0 <= j < n ==> (#[trigger] versions@[j]) is None,
            },
        decreases versions.len() - i,
    {
        match &versions[i] {
            Some(v) => {
                if first.is_none() {
                    first = Some(i);
                }
                let s = text::trim(text::strip_start(v.as_str(), 'v').as_str());
                if text::same_text(s.as_str(), want.as_str()) {
                    assert(is_target(versions@[i as int]));
                    return Some(i);
                }
            },
            None => {},
        }
        i += 1;
    }
    first
}

/// Something that is wrong with the environment.
pub struct Problem {
    pub problem_type: String,
    pub title: String,
    pub detail: String,
}

/// Whether the environment is well, and how to mend it.
pub struct DetectResult {
    pub ok: bool,
    pub problems: Vec<Problem>,
    pub install_cmd: String,
}

/// Something that is wrong with the environment.
pub struct ProblemView {
    pub problem_type: Seq<char>,
    pub title: Seq<char>,
    pub detail: Seq<char>,
}

pub open spec fn problems_view(v: Seq<Problem>) -> Seq<ProblemView> {
    v.map_values(
        |p: Problem|
            ProblemView { problem_type: p.problem_type@, title: p.title@, detail: p.detail@ },
    )
}

/// Some candidate runs.
pub open spec fn some_runs(vs: Seq<Option<String>>) -> bool {
    exists|i: int| 0 <= i < vs.len() && (#[trigger] vs[i]) is Some
}

/// What is wrong: dsh is missing, or none that was found runs.
pub open spec fn problems_of(vs: Seq<Option<String>>, node: Seq<char>) -> Seq<ProblemView> {
    if vs.len() == 0 {
        seq![
            ProblemView {
                problem_type: "dsh-missing"@,
                title: "未检测到 DeepSeek Harness (dsh)"@,
                detail: "需要 Node ≥ 22.12 以及 "@ + DSH_PKG@,
            },
        ]
    } else if some_runs(vs) {
        Seq::empty()
    } else {
        seq![
            ProblemView {
                problem_type: "node-incompatible"@,
                title: "dsh 已安装但无法运行"@,
                detail: "通常是 Node 版本过低（dsh 需要 Node ≥ 20.19 / 22.12）。当前 Node: "@
                    + node + "。建议安装 Node 22。"@,
            },
        ]
    }
}

/// Whether some candidate runs.
pub fn any_runs(versions: &Vec<Option<String>>) -> (r: bool)
    ensures
        r == some_runs(versions@),
{
    let mut i: usize = 0;
    while i < versions.len()
        invariant
            i <= versions.len(),
            forall|j: int| 0 <= j < i ==> (#[trigger] versions@[j]) is None,
        decreases versions.len() - i,
    {
        if versions[i].is_some() {
            assert(versions@[i as int] is Some);
            return true;
        }
        i += 1;
    }
    false
}

/// Judges the environment by the versions that the candidates tell, nothing for one that
/// does not run.
pub fn detect_environment(versions: &Vec<Option<String>>, node: &str) -> (r: DetectResult)
    ensures
        problems_view(r.problems@) == problems_of(versions@, node@),
        r.ok <==> problems_of(versions@, node@).len() == 0,
        r.ok <==> some_runs(versions@),
        r.install_cmd@ == manual_text(),
{
    let mut problems: Vec<Problem> = Vec::new();
    let runs = any_runs(versions);
    if versions.len() == 0 {
        problems.push(
            Problem {
                problem_type: "dsh-missing".to_owned(),
                title: "未检测到 DeepSeek Harness (dsh)".to_owned(),
                detail: text::joined_pair("需要 Node ≥ 22.12 以及 ", DSH_PKG),
            },
        );
    } else if !runs {
        problems.push(
            Problem {
                problem_type: "node-incompatible".to_owned(),
                title: "dsh 已安装但无法运行".to_owned(),
                detail: text::joined_three(
                    "通常是 Node 版本过低（dsh 需要 Node ≥ 20.19 / 22.12）。当前 Node: ",
                    node,
                    "。建议安装 Node 22。",
                ),
            },
        );
    }
    assert(problems_view(problems@) == problems_of(versions@, node@));
    DetectResult { ok: problems.len() == 0, problems, install_cmd: manual_install_cmd() }
}

/// The commands for an install by hand.
pub open spec fn manual_text() -> Seq<char> {
    "export NVM_DIR=\"$HOME/.nvm\"
[ -s \"$NVM_DIR/nvm.sh\" ] && . \"$NVM_DIR/nvm.sh\"
nvm install 22
nvm use 22
mkdir -p \"$HOME/.local/npm-cache\"
export npm_config_cache=\"$HOME/.local/npm-cache\"
npm i -g "@ + DSH_PKG@ + " --registry="@ + NPM_REGISTRY@
}

/// The commands for an install by hand.
pub fn manual_install_cmd() -> (r: String)
    ensures
        r@ == manual_text(),
{
    let mut out = text::joined_three(
        "export NVM_DIR=\"$HOME/.nvm\"
[ -s \"$NVM_DIR/nvm.sh\" ] && . \"$NVM_DIR/nvm.sh\"
nvm install 22
nvm use 22
mkdir -p \"$HOME/.local/npm-cache\"
export npm_config_cache=\"$HOME/.local/npm-cache\"
npm i -g ",
        DSH_PKG,
        " --registry=",
    );
    out.append(NPM_REGISTRY);
    out
}

/// The part of the install script behind its settings.
pub const INSTALL_STEPS: &'static str = "\"
log() { echo \"[install] $*\"; }
stage() { echo \"[install:stage] $1\"; }

stage node
if [ -s \"$NVM_DIR/nvm.sh\" ]; then
  . \"$NVM_DIR/nvm.sh\"
  log \"检测到 nvm，安装/使用 Node 22 ...\"
  nvm install 22
  nvm use 22
elif command -v brew >/dev/null 2>&1; then
  log \"未检测到 nvm，使用 Homebrew 安装 node@22 ...\"
  brew install node@22
  export PATH=\"$(brew --prefix node@22)/bin:$PATH\"
else
  log \"错误：未检测到 nvm 或 Homebrew，无法自动安装 Node 22\"
  exit 1
fi

stage install
log \"安装 $DSH_PKG ...\"

mkdir -p \"$HOME/.local/npm-cache\" \"$HOME/.local\"
export npm_config_cache=\"$HOME/.local/npm-cache\"

if [ -d \"$HOME/.npm\" ] && [ ! -w \"$HOME/.npm\" ]; then
  log \"检测到 ~/.npm 权限受限，尝试 sudo chown 修复...\"
  sudo -n chown -R \"$(whoami)\" \"$HOME/.npm\" 2>/dev/null && log \"sudo chown 成功\" || log \"sudo 跳过，已使用独立缓存继续安装\"
fi

if npm i -g \"$DSH_PKG\" --registry=\"$REG\" 2>/dev/null; then
  log \"官方 registry 安装成功\"
elif npm i -g \"$DSH_PKG\" --registry=\"$MIRROR\" 2>/dev/null; then
  log \"npmmirror 镜像安装成功\"
else
  log \"全局安装失败，fallback 到 --prefix=$HOME/.local（npmmirror）\"
  npm i -g --prefix=\"$HOME/.local\" \"$DSH_PKG\" --registry=\"$MIRROR\"
fi

stage verify
log \"验证安装 ...\"
export PATH=\"$HOME/.local/bin:$PATH\"
if command -v dsh >/dev/null 2>&1; then
  dsh --version
else
  log \"dsh 仍不在 PATH，请复制上方命令在终端中手动安装\"
  exit 1
fi
";

/// The install script.
pub open spec fn script_text() -> Seq<char> {
    "set +e\nexport NVM_DIR=\"$HOME/.nvm\"\nexport REG=\""@ + NPM_REGISTRY@
        + "\"\nexport MIRROR=\""@ + NPM_MIRROR@ + "\"\nexport DSH_PKG=\""@ + DSH_PKG@
        + INSTALL_STEPS@
}

/// The script that installs Node and dsh: from the registry, else from its mirror, else
/// under the home directory.
pub fn build_install_script() -> (r: String)
    ensures
        r@ == script_text(),
{
    let mut out = text::joined_three(
        "set +e\nexport NVM_DIR=\"$HOME/.nvm\"\nexport REG=\"",
        NPM_REGISTRY,
        "\"\nexport MIRROR=\"",
    );
    out.append(NPM_MIRROR);
    out.append("\"\nexport DSH_PKG=\"");
    out.append(DSH_PKG);
    out.append(INSTALL_STEPS);
    out
}

} // verus!
