//! What the files of the configuration hold after setups and a removal.

use vstd::prelude::*;

use crate::action_laws;
use crate::actions;
use crate::actions::ConfigFiles;
use crate::actions::WriteView;
use crate::blocks;
use crate::credential_laws;
use crate::credentials;
use crate::default_laws;
use crate::default_model;
use crate::entry_count;
use crate::gateway;
use crate::give_back;
use crate::lines;
use crate::one_entry;
use crate::provider;
use crate::provider_laws;
use crate::setup_laws;
use crate::text;

verus! {

/// The files as they stand: the settings, the credentials and the kept default model,
/// nothing for a file that does not exist.
pub struct FilesView {
    pub settings: Option<Seq<char>>,
    pub cred: Option<Seq<char>>,
    pub saved: Option<Seq<char>>,
}

/// The text of a file; no text where it does not exist.
pub open spec fn text_or_empty(s: Option<Seq<char>>) -> Seq<char> {
    match s {
        Some(t) => t,
        None => Seq::empty(),
    }
}

/// `f` is what is read of the files `d`.
pub open spec fn reads(f: ConfigFiles, d: FilesView) -> bool {
    &&& f.settings@ == text_or_empty(d.settings)
    &&& f.settings_exists == d.settings is Some
    &&& f.cred@ == text_or_empty(d.cred)
    &&& f.cred_exists == d.cred is Some
    &&& actions::text_view(f.saved) == d.saved
    &&& f.saved_exists == d.saved is Some
}

/// The files after a change.
pub open spec fn changed(d: FilesView, w: WriteView) -> FilesView {
    match w {
        WriteView::Settings(s) => FilesView { settings: Some(s), ..d },
        WriteView::Credentials(s) => FilesView { cred: Some(s), ..d },
        WriteView::SaveDefault(s) => FilesView { saved: Some(s), ..d },
        WriteView::DropDefault => FilesView { saved: None, ..d },
    }
}

/// The files after some changes, one after the other.
pub open spec fn all_changed(d: FilesView, ws: Seq<WriteView>) -> FilesView
    decreases ws.len(),
{
    if ws.len() == 0 {
        d
    } else {
        changed(all_changed(d, ws.drop_last()), ws.last())
    }
}

proof fn lemma_changed_add(d: FilesView, a: Seq<WriteView>, b: Seq<WriteView>)
    ensures
        all_changed(d, a + b) == all_changed(all_changed(d, a), b),
    decreases b.len(),
{
    if b.len() == 0 {
        assert(a + b == a);
    } else {
        assert((a + b).drop_last() == a + b.drop_last());
        lemma_changed_add(d, a, b.drop_last());
    }
}

proof fn lemma_changed_one(d: FilesView, w: WriteView)
    ensures
        all_changed(d, seq![w]) == changed(d, w),
{
    assert(seq![w].drop_last().len() == 0);
    assert(all_changed(d, seq![w].drop_last()) == d);
}

/// The files after a setup as the default.
pub proof fn lemma_files_set_up(
    d: FilesView,
    f: ConfigFiles,
    proxy: Seq<char>,
    models: Seq<(Seq<char>, Seq<char>)>,
)
    requires
        reads(f, d),
    ensures
        all_changed(d, actions::setup_plan(f, proxy, models, true)) == (FilesView {
            settings: Some(actions::setup_settings(f.settings@, proxy, models, true)),
            cred: Some(actions::setup_cred(f.cred@, f.cred_exists)),
            saved: if d.saved is Some {
                d.saved
            } else {
                Some(
                    default_model::saved_default(
                        provider::with_provider(f.settings@, proxy, models),
                    ),
                )
            },
        }),
{
    let a = WriteView::SaveDefault(
        default_model::saved_default(provider::with_provider(f.settings@, proxy, models)),
    );
    let b = WriteView::Settings(actions::setup_settings(f.settings@, proxy, models, true));
    let c = WriteView::Credentials(actions::setup_cred(f.cred@, f.cred_exists));
    let none = Seq::<WriteView>::empty();
    let first = if d.saved is Some {
        none
    } else {
        seq![a]
    };
    lemma_changed_one(d, a);
    assert(all_changed(d, none) == d);
    lemma_changed_add(d, first, seq![b, c]);
    let m = all_changed(d, first);
    assert(seq![b, c] == seq![b] + seq![c]);
    lemma_changed_add(m, seq![b], seq![c]);
    lemma_changed_one(m, b);
    lemma_changed_one(changed(m, b), c);
}

/// The files after a removal.
pub proof fn lemma_files_removed(d: FilesView, f: ConfigFiles)
    requires
        reads(f, d),
        d.settings is Some,
        d.cred is Some,
    ensures
        all_changed(d, actions::remove_plan(f)) == (FilesView {
            settings: Some(actions::removed_settings(f.settings@, d.saved)),
            cred: Some(actions::removed_cred(f.cred@)),
            saved: None,
        }),
{
    let a = WriteView::Settings(actions::removed_settings(f.settings@, d.saved));
    let b = WriteView::Credentials(actions::removed_cred(f.cred@));
    let c = WriteView::DropDefault;
    lemma_changed_add(d, seq![a] + seq![b], seq![c]);
    lemma_changed_add(d, seq![a], seq![b]);
    lemma_changed_one(d, a);
    lemma_changed_one(changed(d, a), b);
    lemma_changed_one(changed(changed(d, a), b), c);
}

/// Setting the gateway up as the default twice, also with other models the second time,
/// leaves its entry in the settings once, as the first time does; the default model from
/// before the first time stays kept, up to white space at its end; and the credentials stay
/// as the first time leaves them. This is about settings that do not open the entry, with
/// one providers block at most, whose last line is not a providers line without a newline,
/// and about credentials whose first line of keys is not the last one without a newline.
pub proof fn law_set_up_twice(
    d: FilesView,
    f1: ConfigFiles,
    f2: ConfigFiles,
    proxy1: Seq<char>,
    models1: Seq<(Seq<char>, Seq<char>)>,
    proxy2: Seq<char>,
    models2: Seq<(Seq<char>, Seq<char>)>,
)
    requires
        reads(f1, d),
        reads(f2, all_changed(d, actions::setup_plan(f1, proxy1, models1, true))),
        d.saved is None,
        !provider::provider_in(f1.settings@),
        default_laws::at_most_one(
            blocks::blocks_of(f1.settings@),
            provider::PROVIDERS_BLOCK@,
        ),
        !provider_laws::hanging(f1.settings@),
        !credential_laws::hanging(f1.cred@) || credentials::key_in(f1.cred@),
        provider_laws::no_nl(proxy1),
        provider_laws::plain_models(models1),
        provider_laws::no_nl(proxy2),
        provider_laws::plain_models(models2),
    ensures
        ({
            let once = all_changed(d, actions::setup_plan(f1, proxy1, models1, true));
            let twice = all_changed(once, actions::setup_plan(f2, proxy2, models2, true));
            &&& once.settings is Some && entry_count::entry_count(once.settings->0) == 1
            &&& twice.settings is Some && entry_count::entry_count(twice.settings->0) == 1
            &&& once.saved is Some && text::trimmed_end(once.saved->0) == text::trimmed_end(
                default_model::saved_default(f1.settings@),
            )
            &&& twice.saved == once.saved
            &&& once.cred is Some && credentials::key_in(once.cred->0)
            &&& twice.cred == once.cred
        }),
{
    let once = all_changed(d, actions::setup_plan(f1, proxy1, models1, true));
    lemma_files_set_up(d, f1, proxy1, models1);
    lemma_files_set_up(once, f2, proxy2, models2);
    setup_laws::law_write_keeps_default(f1.settings@, proxy1, models1);
    one_entry::lemma_one_place(f1.settings@);
    provider_laws::lemma_settings_nl(f1.settings@, proxy1, models1);
    one_entry::lemma_written_in_place(lines::with_nl(f1.settings@), proxy1, models1);
    let u1 = provider::with_provider(f1.settings@, proxy1, models1);
    action_laws::lemma_default_id(models1);
    one_entry::lemma_default_in_place(u1, gateway::default_id(models1));
    let s1 = f2.settings@;
    one_entry::lemma_in_place(s1);
    one_entry::lemma_written_in_place(s1, proxy2, models2);
    let u2 = provider::with_provider(s1, proxy2, models2);
    action_laws::lemma_default_id(models2);
    one_entry::lemma_default_in_place(u2, gateway::default_id(models2));
    one_entry::lemma_in_place(default_model::with_default_model(u2, gateway::default_id(models2)));
    let c = if f1.cred_exists {
        f1.cred@
    } else {
        "version: 1\nrefs:\n"@
    };
    if !f1.cred_exists {
        reveal_strlit("version: 1\nrefs:\n");
    }
    credential_laws::law_key_written(c);
}

/// Removing the gateway after it was set up as the default gives all the files back, char by
/// char: the settings with their other providers and their default model, the credentials
/// with their other keys, and no kept default model. This is about settings as
/// `give_back::tidy_settings` describes them, with one default-model block at most, and about
/// credentials without the gateway's key that end with a newline and have a line under which
/// the keys stand.
pub proof fn law_files_come_back(
    d: FilesView,
    f1: ConfigFiles,
    f2: ConfigFiles,
    proxy: Seq<char>,
    models: Seq<(Seq<char>, Seq<char>)>,
)
    requires
        reads(f1, d),
        reads(f2, all_changed(d, actions::setup_plan(f1, proxy, models, true))),
        d.settings is Some,
        d.cred is Some,
        d.saved is None,
        give_back::tidy_settings(f1.settings@),
        default_laws::at_most_one(
            blocks::blocks_of(f1.settings@),
            default_model::DEFAULT_BLOCK@,
        ),
        lines::ended(f1.cred@),
        credentials::refs_at(lines::lines_of(f1.cred@)) < lines::lines_of(f1.cred@).len(),
        !credentials::key_in(f1.cred@),
        provider_laws::no_nl(proxy),
        provider_laws::plain_models(models),
    ensures
        all_changed(
            all_changed(d, actions::setup_plan(f1, proxy, models, true)),
            actions::remove_plan(f2),
        ) == d,
{
    let once = all_changed(d, actions::setup_plan(f1, proxy, models, true));
    let cred = f1.cred@;
    lemma_files_set_up(d, f1, proxy, models);
    lemma_files_removed(once, f2);
    give_back::law_settings_come_back(f1.settings@, proxy, models);
    credential_laws::law_remove_undoes_key(cred);
    assert(!text::blank(cred)) by {
        let ls = lines::lines_of(cred);
        let n = credentials::refs_at(ls);
        lines::lemma_lines_of(cred);
        credentials::lemma_refs_at(ls);
        reveal_strlit("refs:");
        text::lemma_trimmed_end(ls[n]);
        let l = ls[n];
        let m = text::trimmed_end(l).len() as int;
        assert(!text::white(l[m - 1]));
        lines::lemma_joined_split(ls, n);
        let a = lines::joined(ls.take(n));
        assert(ls.skip(n)[0] == l);
        assert(lines::joined(ls.skip(n)) == l + lines::joined(ls.skip(n).skip(1)));
        assert(cred[a.len() + m - 1] == l[m - 1]);
    }
}

} // verus!
