//! What finding dsh, judging the environment and installing promise of each call.

use vstd::prelude::*;

use crate::choice_laws;
use crate::default_model;
use crate::gateway;
use crate::install;
use crate::install::DetectResult;
use crate::install::Place;
use crate::install::PlaceView;
use crate::install::RunOutput;
use crate::lines;
use crate::outside_text;
use crate::provider;
use crate::provider::GatewayModel;
use crate::text;
use crate::text_laws;

verus! {

/// The model that is chosen is the first whose id ends with `deepseek-v4-flash`, and the first
/// of all where none does.
pub proof fn law_chosen_model(models: &Vec<GatewayModel>, r: String, i: int)
    requires
        call_ensures(gateway::pick_default_model, (models,), r),
    ensures
        0 <= i < models.len() && text_laws::ends_in(models@[i].id@, "deepseek-v4-flash"@) ==> {
            &&& text_laws::ends_in(r@, "deepseek-v4-flash"@)
            &&& exists|n: int|
                0 <= n <= i && (#[trigger] models@[n]).id@ == r@ && forall|j: int|
                    0 <= j < n ==> !text_laws::ends_in(
                        (#[trigger] models@[j]).id@,
                        "deepseek-v4-flash"@,
                    )
        },
        models.len() > 0 && (forall|j: int|
            0 <= j < models.len() ==> !text_laws::ends_in(
                (#[trigger] models@[j]).id@,
                "deepseek-v4-flash"@,
            )) ==> r@ == models@[0].id@,
        models.len() == 0 ==> r@.len() == 0,
{
    let p = provider::model_pairs(models@);
    assert(p.len() == models.len());
    assert forall|j: int| 0 <= j < p.len() implies (#[trigger] p[j]).0 == models@[j].id@ by {}
    choice_laws::law_default_is_flash(p, i);
    if 0 <= i < models.len() && text_laws::ends_in(models@[i].id@, "deepseek-v4-flash"@) {
        assert(choice_laws::is_flash(p[i].0));
        let n = choose|n: int|
            0 <= n <= i && gateway::default_id(p) == (#[trigger] p[n]).0 && forall|j: int|
                0 <= j < n ==> !choice_laws::is_flash((#[trigger] p[j]).0);
        assert(models@[n].id@ == r@);
        assert forall|j: int| 0 <= j < n implies !text_laws::ends_in(
            (#[trigger] models@[j]).id@,
            "deepseek-v4-flash"@,
        ) by {
            assert(!choice_laws::is_flash(p[j].0));
        }
    }
    if forall|j: int|
        0 <= j < models.len() ==> !text_laws::ends_in(
            (#[trigger] models@[j]).id@,
            "deepseek-v4-flash"@,
        ) {
        assert forall|j: int| 0 <= j < p.len() implies !choice_laws::is_flash(
            (#[trigger] p[j]).0,
        ) by {
            assert(!text_laws::ends_in(models@[j].id@, "deepseek-v4-flash"@));
        }
        if models.len() > 0 {
            assert(p[0].0 == models@[0].id@);
        }
    }
}

/// Where some candidate tells exactly the version that is known to work, the first such is
/// chosen; any other only where none does, and then the first that runs.
pub proof fn law_chosen_dsh(versions: &Vec<Option<String>>, r: Option<usize>, k: int)
    requires
        call_ensures(install::select_dsh, (versions,), r),
    ensures
        0 <= k < versions.len() && versions@[k] is Some && choice_laws::tells_pinned(
            versions@[k]->0@,
        ) ==> {
            &&& r is Some && r->0 <= k
            &&& versions@[r->0 as int] is Some
            &&& choice_laws::tells_pinned(versions@[r->0 as int]->0@)
        },
        r is None ==> forall|i: int| 0 <= i < versions.len() ==> (#[trigger] versions@[i]) is None,
        r is Some ==> r->0 < versions.len() && versions@[r->0 as int] is Some,
        r is Some && !choice_laws::tells_pinned(versions@[r->0 as int]->0@) ==> forall|i: int|
            0 <= i < r->0 ==> (#[trigger] versions@[i]) is None,
{
    choice_laws::law_pinned_version_is_chosen(versions@, r);
    if 0 <= k < versions.len() && versions@[k] is Some && choice_laws::tells_pinned(
        versions@[k]->0@,
    ) {
        if r->0 > k {
            assert(!choice_laws::tells_pinned(versions@[k]->0@));
        }
    }
    if r is Some && !choice_laws::tells_pinned(versions@[r->0 as int]->0@) {
        assert forall|i: int| 0 <= i < versions.len() && (#[trigger] versions@[i]) is Some implies
            !choice_laws::tells_pinned(versions@[i]->0@) by {}
    }
}

/// A version is what a program that succeeded wrote, without white space around it.
pub proof fn law_versions(
    o: &Option<RunOutput>,
    a: Seq<char>,
    mid: Seq<char>,
    b: Seq<char>,
    dsh: Option<String>,
    node: String,
)
    requires
        call_ensures(install::run_dsh_version, (o,), dsh),
        call_ensures(install::current_node_version, (o,), node),
        text::blank(a),
        text::blank(b),
        mid.len() > 0,
        !text::white(mid[0]),
        !text::white(mid.last()),
    ensures
        o is None || !o->0.success ==> dsh is None && node@ == "未知"@,
        o is Some && o->0.success && outside_text::lossy(o->0.stdout@) == a + mid + b ==> dsh is Some
            && dsh->0@ == mid && node@ == mid,
        o is Some && outside_text::lossy(o->0.stdout@) == a ==> dsh is None && node@ == "未知"@,
{
    choice_laws::law_told(*o, a, mid, b);
}

/// The path of dsh is what the shell wrote on its last line, without white space around it.
pub proof fn law_path_of_shell(
    o: RunOutput,
    before: Seq<char>,
    a: Seq<char>,
    path: Seq<char>,
    r: Option<String>,
    none: Option<String>,
)
    requires
        call_ensures(install::find_dsh_via_shell, (&Some(o),), r),
        call_ensures(install::find_dsh_via_shell, (&None,), none),
        before.len() == 0 || before.last() == '\n',
        text::blank(a),
        path.len() > 0,
        !text::white(path[0]),
        !text::white(path.last()),
        text_laws::unbroken(a + path),
    ensures
        o.success && outside_text::lossy(o.stdout@) == before + (a + path + "\n"@) ==> r is Some
            && r->0@ == path,
        o.success && outside_text::lossy(o.stdout@) == before + (a + path + ""@) ==> r is Some
            && r->0@ == path,
        !o.success ==> r is None,
        none is None,
{
    reveal_strlit("\n");
    reveal_strlit("");
    if o.success && outside_text::lossy(o.stdout@) == before + (a + path + "\n"@) {
        choice_laws::law_shell_path(o, before, a, path, "\n"@);
    }
    if o.success && outside_text::lossy(o.stdout@) == before + (a + path + ""@) {
        choice_laws::law_shell_path(o, before, a, path, ""@);
    }
}

/// The places that count are where the shell finds dsh and where there is a file, in their
/// order.
pub proof fn law_places_that_count(
    ps: &Vec<Place>,
    file: &Vec<bool>,
    r: Vec<usize>,
    k: int,
    i: int,
    j: int,
)
    requires
        ps.len() == file.len(),
        call_ensures(install::present_places, (ps, file), r),
    ensures
        0 <= k < ps.len() ==> (r@.contains(k as usize) <==> ps@[k] is Shell || file@[k]),
        0 <= i < r.len() ==> r@[i] < ps.len(),
        0 <= i < j < r.len() ==> r@[i] < r@[j],
{
    let v = install::places(ps@);
    choice_laws::law_present(v, file@, ps.len() as int);
    if 0 <= k < ps.len() {
        assert(v[k] == ps@[k]@);
        let x = k as usize;
        assert(x as int == k);
    }
}

/// The directory comes in front of the search path.
pub proof fn law_search_path(dir: &str, existing: Option<String>, r: String)
    requires
        call_ensures(install::search_path, (dir, existing), r),
    ensures
        existing is Some ==> r@ == dir@ + ":"@ + existing->0@,
        existing is None ==> r@ == dir@,
{
}

/// dsh is looked for where the shell finds it, with the Node versions from the highest down,
/// under the home directory, and at four places that do not depend on the user.
pub proof fn law_candidates(
    shell: bool,
    home: bool,
    names: &Vec<String>,
    r: Vec<Place>,
    i: int,
    j: int,
)
    requires
        call_ensures(install::find_dsh_candidates, (shell, home, names), r),
    ensures
        ({
            let n: int = if shell {
                1
            } else {
                0
            };
            let m: int = if home {
                n + names.len()
            } else {
                n
            };
            let f: int = if home {
                m + 3
            } else {
                m
            };
            &&& r.len() == f + 4
            &&& shell ==> r@[0] is Shell
            &&& n <= i < m ==> r@[i] is Nvm && r@[i]->Nvm_0 < names.len()
            &&& n <= i < j < m ==> {
                let x = install::version_numbers(names@[r@[i]->Nvm_0 as int]@);
                let y = install::version_numbers(names@[r@[j]->Nvm_0 as int]@);
                &&& r@[i]->Nvm_0 != r@[j]->Nvm_0
                &&& x.0 >= y.0
                &&& x.0 == y.0 ==> x.1 >= y.1
                &&& x.0 == y.0 && x.1 == y.1 ==> x.2 >= y.2
                &&& x == y ==> r@[i]->Nvm_0 > r@[j]->Nvm_0
            }
            &&& home ==> {
                &&& r@[m] is Home && r@[m]->Home_0@ == ".local/bin/dsh"@
                &&& r@[m + 1] is Home && r@[m + 1]->Home_0@ == "Library/pnpm/dsh"@
                &&& r@[m + 2] is Home && r@[m + 2]->Home_0@ == ".volta/bin/dsh"@
            }
            &&& r@[f] is Fixed && r@[f]->Fixed_0@ == "/opt/homebrew/bin/dsh"@
            &&& r@[f + 1] is Fixed && r@[f + 1]->Fixed_0@ == "/opt/homebrew/opt/node@22/bin/dsh"@
            &&& r@[f + 2] is Fixed && r@[f + 2]->Fixed_0@ == "/usr/local/bin/dsh"@
            &&& r@[f + 3] is Fixed && r@[f + 3]->Fixed_0@ == "/usr/local/opt/node@22/bin/dsh"@
        }),
{
    let vs = lines::texts(names@);
    let ps = install::places(r@);
    let o = choose|o: Seq<usize>|
        #[trigger] install::newest_first(o, vs) && install::looked_for(ps, shell, home, o);
    choice_laws::law_places(ps, shell, home, o, i);
    choice_laws::law_places(ps, shell, home, o, j);
    assert(ps.len() == r.len());
    assert(vs.len() == names.len());
    assert forall|k: int| 0 <= k < r.len() implies (#[trigger] r@[k])@ == ps[k] by {}
    let n: int = if shell {
        1
    } else {
        0
    };
    let m: int = if home {
        n + names.len()
    } else {
        n
    };
    assert(o.len() == vs.len());
    if n <= i < m {
        assert(r@[i]@ == PlaceView::Nvm(o[i - n] as int));
        if i < j < m {
            assert(r@[j]@ == PlaceView::Nvm(o[j - n] as int));
            choice_laws::law_newest_first(o, vs, i - n, j - n);
            assert(install::newer(vs, o[i - n] as int, o[j - n] as int));
            assert(vs[o[i - n] as int] == names@[o[i - n] as int]@);
            assert(vs[o[j - n] as int] == names@[o[j - n] as int]@);
        }
    }
}

/// The environment is well exactly where some candidate runs. Else one thing is wrong: dsh is
/// missing, or what was found does not run; how to install it by hand is told in any case.
pub proof fn law_environment(
    versions: &Vec<Option<String>>,
    node: &str,
    r: DetectResult,
    by_hand: String,
    k: int,
)
    requires
        call_ensures(install::detect_environment, (versions, node), r),
        call_ensures(install::manual_install_cmd, (), by_hand),
    ensures
        0 <= k < versions.len() && versions@[k] is Some ==> r.ok,
        r.ok <==> r.problems.len() == 0,
        r.ok ==> exists|i: int| 0 <= i < versions.len() && (#[trigger] versions@[i]) is Some,
        !r.ok ==> r.problems.len() == 1,
        versions.len() == 0 ==> {
            let p = r.problems@[0];
            &&& p.problem_type@ == "dsh-missing"@
            &&& p.title@ == "未检测到 DeepSeek Harness (dsh)"@
            &&& p.detail@ == "需要 Node ≥ 22.12 以及 "@ + "@deepseek-ai/dsh@0.1.1-rc.2"@
        },
        versions.len() > 0 && !r.ok ==> {
            let p = r.problems@[0];
            &&& p.problem_type@ == "node-incompatible"@
            &&& p.title@ == "dsh 已安装但无法运行"@
            &&& p.detail@ == "通常是 Node 版本过低（dsh 需要 Node ≥ 20.19 / 22.12）。当前 Node: "@
                + node@ + "。建议安装 Node 22。"@
        },
        r.install_cmd@ == by_hand@,
{
    let v = install::problems_view(r.problems@);
    assert(v.len() == r.problems.len());
    if v.len() > 0 {
        let p = r.problems@[0];
        assert(v[0].problem_type == p.problem_type@ && v[0].title == p.title@ && v[0].detail
            == p.detail@);
    }
}

/// The script that asks the shell for dsh, the commands for an install by hand, and the script
/// that installs: all of the pinned version, from the registry first.
pub proof fn law_scripts(shell: String, by_hand: String, script: String)
    requires
        call_ensures(install::shell_script, (), shell),
        call_ensures(install::manual_install_cmd, (), by_hand),
        call_ensures(install::build_install_script, (), script),
    ensures
        shell@ == "export NVM_DIR=\"$HOME/.nvm\"\n[ -s \"$NVM_DIR/nvm.sh\" ] && . \"$NVM_DIR/nvm.sh\"\ncommand -v dsh"@,
        by_hand@ == "export NVM_DIR=\"$HOME/.nvm\"
[ -s \"$NVM_DIR/nvm.sh\" ] && . \"$NVM_DIR/nvm.sh\"
nvm install 22
nvm use 22
mkdir -p \"$HOME/.local/npm-cache\"
export npm_config_cache=\"$HOME/.local/npm-cache\"
npm i -g "@ + "@deepseek-ai/dsh@0.1.1-rc.2"@ + " --registry="@
            + "https://registry.npmjs.org"@,
        script@ == "set +e\nexport NVM_DIR=\"$HOME/.nvm\"\nexport REG=\""@
            + "https://registry.npmjs.org"@ + "\"\nexport MIRROR=\""@
            + "https://registry.npmmirror.com"@ + "\"\nexport DSH_PKG=\""@
            + "@deepseek-ai/dsh@0.1.1-rc.2"@ + "\"
log() { echo \"[install] $*\"; }
stage() { echo \"[install:stage] $1\"; }

stage node
if [ -s \"$NVM_DIR/nvm.sh\" ]; then
  . \"$NVM_DIR/nvm.sh\"
  log \"检测到 nvm，安装/使用 Node 22 ...\"
  nvm install 22
  nvm use 22
elif command -v brew >/dev/null 2>&1; then
  log \"未检测到 nvm，使用 Homebrew 安装 node@22 ...\"
  brew install node@22
  export PATH=\"$(brew --prefix node@22)/bin:$PATH\"
else
  log \"错误：未检测到 nvm 或 Homebrew，无法自动安装 Node 22\"
  exit 1
fi

stage install
log \"安装 $DSH_PKG ...\"

mkdir -p \"$HOME/.local/npm-cache\" \"$HOME/.local\"
export npm_config_cache=\"$HOME/.local/npm-cache\"

if [ -d \"$HOME/.npm\" ] && [ ! -w \"$HOME/.npm\" ]; then
  log \"检测到 ~/.npm 权限受限，尝试 sudo chown 修复...\"
  sudo -n chown -R \"$(whoami)\" \"$HOME/.npm\" 2>/dev/null && log \"sudo chown 成功\" || log \"sudo 跳过，已使用独立缓存继续安装\"
fi

if npm i -g \"$DSH_PKG\" --registry=\"$REG\" 2>/dev/null; then
  log \"官方 registry 安装成功\"
elif npm i -g \"$DSH_PKG\" --registry=\"$MIRROR\" 2>/dev/null; then
  log \"npmmirror 镜像安装成功\"
else
  log \"全局安装失败，fallback 到 --prefix=$HOME/.local（npmmirror）\"
  npm i -g --prefix=\"$HOME/.local\" \"$DSH_PKG\" --registry=\"$MIRROR\"
fi

stage verify
log \"验证安装 ...\"
export PATH=\"$HOME/.local/bin:$PATH\"
if command -v dsh >/dev/null 2>&1; then
  dsh --version
else
  log \"dsh 仍不在 PATH，请复制上方命令在终端中手动安装\"
  exit 1
fi
"@,
{
}

/// The default model is kept once: nothing is written where a copy is there, else the block
/// that the settings have.
pub proof fn law_kept_default(exists: bool, settings: &str, r: Option<String>)
    requires
        call_ensures(default_model::save_default_model_backup, (exists, settings), r),
    ensures
        r is None <==> exists,
        r is Some ==> r->0@ == default_model::saved_default(settings@),
{
}

/// Where it is not known what was kept, only a default model that names the gateway changes.
pub proof fn law_unknown_default(
    known: bool,
    saved: Option<&str>,
    settings: &str,
    r: String,
    cleared: String,
)
    requires
        call_ensures(default_model::restore_default_model, (known, saved, settings), r),
        call_ensures(default_model::clear_ais_default_model, (settings,), cleared),
    ensures
        !known ==> r@ == cleared@,
        known && saved is Some ==> r@ == default_model::restored(Some(saved->0@), settings@),
        known && saved is None ==> r@ == default_model::restored(None, settings@),
        known && saved is None && default_model::current_provider(settings@) == Some(
            "ais-codex"@,
        ) ==> r@ == cleared@,
{
}

} // verus!
