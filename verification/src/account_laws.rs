//! What the balance of the account and the places and rights of the files promise.

use vstd::prelude::*;

use crate::actions::ConfigWrite;
use crate::balance;
use crate::balance::PriceTier;
use crate::credentials;
use crate::files;
use crate::files::WriteFailure;
use crate::files::WriteStep;
use crate::gateway;
use crate::json::JsonView;
use crate::report_laws;
use crate::text_laws;

verus! {

/// The balance is asked for exactly where the credentials give the official key, and with that
/// key.
pub proof fn law_balance_request(cred: &str, r: Option<Vec<String>>)
    requires
        call_ensures(balance::balance_args, (cred,), r),
    ensures
        r is Some <==> credentials::yaml_value(cred@, "DEEPSEEK_API_KEY"@) is Some,
        r matches Some(v) ==> {
            &&& v.len() == 6
            &&& v@[0]@ == "-sS"@
            &&& v@[1]@ == "-m"@
            &&& v@[2]@ == "10"@
            &&& v@[3]@ == "-H"@
            &&& v@[4]@ == "Authorization: Bearer "@ + credentials::yaml_value(
                cred@,
                "DEEPSEEK_API_KEY"@,
            )->0
            &&& v@[5]@ == "https://api.deepseek.com/user/balance"@
        },
{
    if r is Some {
        let w = r->0@.map_values(|s: String| s@);
        assert(Some(w) == balance::balance_args_view(cred@));
        assert(w.len() == 6);
        let v = r->0;
        assert(w[0] == v@[0]@ && w[1] == v@[1]@ && w[2] == v@[2]@ && w[3] == v@[3]@ && w[4]
            == v@[4]@ && w[5] == v@[5]@);
    }
}

/// The balance is that of the first entry of a reply, in its currency, or in dollars where it
/// names none; a reply without a total gives no balance.
pub proof fn law_balance_reply(
    v: JsonView,
    items: Seq<JsonView>,
    total: Seq<char>,
    currency: Seq<char>,
)
    requires
        report_laws::under(v, "balance_infos"@, JsonView::Array(items)),
    ensures
        items.len() > 0 && report_laws::under(items[0], "total_balance"@, JsonView::Str(total))
            && report_laws::under(items[0], "currency"@, JsonView::Str(currency))
            ==> balance::balance_of(v) == Some((total, currency)),
        items.len() > 0 && report_laws::under(items[0], "total_balance"@, JsonView::Str(total))
            && report_laws::nothing_under(items[0], "currency"@) ==> balance::balance_of(v) == Some(
            (total, "USD"@),
        ),
        items.len() > 0 && report_laws::nothing_under(items[0], "total_balance"@)
            ==> balance::balance_of(v) is None,
        items.len() == 0 ==> balance::balance_of(v) is None,
{
    report_laws::law_field(v, "balance_infos"@, JsonView::Array(items));
    report_laws::law_field(items[0], "total_balance"@, JsonView::Str(total));
    report_laws::law_field(items[0], "currency"@, JsonView::Str(currency));
}

/// A reply without entries gives no balance.
pub proof fn law_no_balance(v: JsonView)
    ensures
        report_laws::nothing_under(v, "balance_infos"@) ==> balance::balance_of(v) is None,
{
    report_laws::law_field(v, "balance_infos"@, JsonView::Null);
}

/// A balance is good for less than five minutes.
pub proof fn law_balance_age(age_secs: Option<u64>, r: bool)
    requires
        call_ensures(balance::balance_is_fresh, (age_secs,), r),
    ensures
        r <==> age_secs is Some && age_secs->0 < 5 * 60,
{
}

/// A model is rated as a reasoner exactly where `reasoner` or `r1` stands in its name.
pub proof fn law_price_tier(model: &str, r: PriceTier)
    requires
        call_ensures(balance::price_tier, (model,), r),
    ensures
        r is Reasoner <==> text_laws::inside(model@, "reasoner"@) || text_laws::inside(
            model@,
            "r1"@,
        ),
{
    text_laws::law_found(model@, "reasoner"@);
    text_laws::law_found(model@, "r1"@);
}

/// The gateway is asked under the address that is given, else under the local one.
pub proof fn law_proxy(given: Option<String>, r: String)
    requires
        call_ensures(gateway::proxy, (given,), r),
    ensures
        given is Some ==> r@ == given->0@,
        given is None ==> r@ == "http://127.0.0.1:15721"@,
{
}

/// `path` names `file` in the directory `dir`, with one slash in between.
pub open spec fn names_file(path: Seq<char>, dir: Seq<char>, file: Seq<char>) -> bool {
    if dir.len() > 0 && dir.last() != '/' {
        path == dir + "/"@ + file
    } else {
        path == dir + file
    }
}

pub proof fn lemma_path_in(dir: Seq<char>, file: Seq<char>)
    ensures
        names_file(files::path_in(dir, file), dir, file),
{
    reveal_strlit("/");
    assert(dir.push('/') == dir + "/"@);
}

/// The directory of dsh is the one that is given, else `.dsh` in the home directory.
pub proof fn law_dsh_home(
    given: &Option<String>,
    home: &Option<String>,
    r: Result<String, String>,
    shown: String,
)
    requires
        call_ensures(files::dsh_home, (given, home), r),
        call_ensures(files::config_home_display, (given, home), shown),
    ensures
        given is Some ==> r is Ok && r->Ok_0@ == given->0@,
        given is None && home is Some ==> r is Ok && names_file(r->Ok_0@, home->0@, ".dsh"@),
        given is None && home is None ==> r is Err && r->Err_0@ == "无 HOME"@,
        r is Ok ==> shown@ == r->Ok_0@,
        r is Err ==> shown@ == "<解析失败: "@ + "无 HOME"@ + ">"@,
{
    if home is Some {
        lemma_path_in(home->0@, ".dsh"@);
    }
}

/// The four files stand in the directory of dsh, under names of their own.
pub proof fn law_file_places(
    given: &Option<String>,
    home: &Option<String>,
    dir: Result<String, String>,
    settings: Result<String, String>,
    cred: Result<String, String>,
    saved: Result<String, String>,
    lock: Result<String, String>,
)
    requires
        call_ensures(files::dsh_home, (given, home), dir),
        call_ensures(files::settings_path, (given, home), settings),
        call_ensures(files::credentials_path, (given, home), cred),
        call_ensures(files::default_model_backup_path, (given, home), saved),
        call_ensures(files::lock_path, (given, home), lock),
    ensures
        dir matches Ok(d) ==> {
            &&& settings is Ok && names_file(settings->Ok_0@, d@, "settings.yaml"@)
            &&& cred is Ok && names_file(cred->Ok_0@, d@, ".credentials.yaml"@)
            &&& saved is Ok && names_file(saved->Ok_0@, d@, ".ais-default-model.bak"@)
            &&& lock is Ok && names_file(lock->Ok_0@, d@, ".ais-codex.lock"@)
        },
        dir matches Err(e) ==> {
            &&& settings is Err && settings->Err_0@ == e@
            &&& cred is Err && cred->Err_0@ == e@
            &&& saved is Err && saved->Err_0@ == e@
            &&& lock is Err && lock->Err_0@ == e@
        },
{
    if dir is Ok {
        let d = dir->Ok_0@;
        lemma_path_in(d, "settings.yaml"@);
        lemma_path_in(d, ".credentials.yaml"@);
        lemma_path_in(d, ".ais-default-model.bak"@);
        lemma_path_in(d, ".ais-codex.lock"@);
    }
}

/// The backup and the temporary file of a file have names that tell them apart from it and
/// from each other.
pub proof fn law_side_files(file: &str, backup: String, temp: String)
    requires
        call_ensures(files::backup_name, (file,), backup),
        call_ensures(files::temp_name, (file,), temp),
    ensures
        backup@ == file@ + ".bak-ais-codex"@,
        temp@ == file@ + ".tmp-ais-codex"@,
        backup@ != temp@,
        backup@ != file@,
        temp@ != file@,
{
    reveal_strlit(".bak-ais-codex");
    reveal_strlit(".tmp-ais-codex");
    assert(backup@[file@.len() as int + 1] == 'b');
    assert(temp@[file@.len() as int + 1] == 't');
    assert(backup@.len() > file@.len());
    assert(temp@.len() > file@.len());
}

/// The credentials and the kept default model are written for the owner only, and so are their
/// backups; settings keep the rights they have.
pub proof fn law_rights(w: &ConfigWrite, mode: Option<u32>, exists: bool, kept: bool)
    requires
        call_ensures(ConfigWrite::mode, (w,), mode),
    ensures
        mode is Some <==> w is Credentials || w is SaveDefault,
        mode is Some ==> mode->0 == 0o600,
        ({
            let steps = files::write_steps(exists, kept, mode);
            &&& w is Credentials || w is SaveDefault ==> {
                &&& steps[steps.len() - 2] == WriteStep::SetTempMode(0o600)
                &&& exists && !kept ==> steps[2] == WriteStep::SetBackupMode(0o600)
            }
            &&& w is Settings ==> {
                &&& steps.contains(WriteStep::KeepMode) <==> exists
                &&& forall|i: int|
                    0 <= i < steps.len() ==> !((#[trigger] steps[i]) is SetTempMode)
            }
            &&& steps[0] is MakeDir
            &&& steps.contains(WriteStep::WriteTemp)
            &&& steps.last() is Rename
        }),
{
    let steps = files::write_steps(exists, kept, mode);
    let n = steps.len() as int;
    if mode is Some {
        assert(steps[n - 2] == WriteStep::SetTempMode(mode->0));
        assert(steps[n - 3] == WriteStep::WriteTemp);
    } else if exists {
        assert(steps[n - 2] == WriteStep::KeepMode);
        assert(steps[n - 3] == WriteStep::WriteTemp);
    } else {
        assert(steps[n - 2] == WriteStep::WriteTemp);
    }
}

/// A failed write is given up, and the temporary file dropped where it was to be renamed; the
/// rights of a backup and rights that are to be kept are no reason to give up.
pub proof fn law_failed_write(step: WriteStep, r: WriteFailure)
    requires
        call_ensures(files::write_failed, (step,), r),
    ensures
        step is MakeDir || step is CopyToBackup || step is WriteTemp || step is SetTempMode ==> r
            == WriteFailure::GiveUp(None),
        step is Rename ==> r == WriteFailure::GiveUp(Some(WriteStep::DropTemp)),
        step is SetBackupMode || step is KeepMode || step is DropTemp ==> r is GoOn,
{
}

} // verus!
