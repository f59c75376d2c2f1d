//! What setting the gateway up, doing so again and removing it promise together.

use vstd::prelude::*;

use crate::actions;
use crate::actions::ConfigFiles;
use crate::blocks;
use crate::credential_laws;
use crate::credentials;
use crate::default_laws;
use crate::default_model;
use crate::entry_count;
use crate::gateway;
use crate::provider;
use crate::provider_laws;
use crate::setup_laws;
use crate::text;

verus! {

/// The id of the default model holds no line break where no id does.
pub proof fn lemma_default_id(models: Seq<(Seq<char>, Seq<char>)>)
    requires
        provider_laws::plain_models(models),
    ensures
        provider_laws::no_nl(gateway::default_id(models)),
{
    if models.len() > 0 {
        gateway::law_default_is_offered(models);
        let i = choose|i: int|
            0 <= i < models.len() && (#[trigger] models[i]).0 == gateway::default_id(models);
        assert(provider_laws::no_nl(models[i].0));
    }
}

/// Removing the gateway after it was set up as the default gives the settings back as a
/// removal alone would, with their default model; settings without a providers block come
/// back as they were. Blank lines in front of the first key and white space at the end
/// are left out of it. Settings without the gateway's entry are without it again.
pub proof fn law_remove_undoes_setup(
    settings: Seq<char>,
    proxy: Seq<char>,
    models: Seq<(Seq<char>, Seq<char>)>,
)
    requires
        provider_laws::no_nl(proxy),
        provider_laws::plain_models(models),
        default_laws::at_most_one(blocks::blocks_of(settings), default_model::DEFAULT_BLOCK@),
    ensures
        ({
            let kept = default_model::saved_default(
                provider::with_provider(settings, proxy, models),
            );
            let written = actions::setup_settings(settings, proxy, models, true);
            let left = actions::removed_settings(written, Some(kept));
            &&& text::trimmed_end(left) == text::trimmed_end(
                if provider_laws::has_providers(settings) {
                    provider::without_provider(settings)
                } else {
                    blocks::without_blank_head(settings)
                },
            )
            &&& !provider::provider_in(settings) ==> !provider::provider_in(left)
        }),
{
    let u = provider::with_provider(settings, proxy, models);
    let kept = default_model::saved_default(u);
    let written = actions::setup_settings(settings, proxy, models, true);
    let left = actions::removed_settings(written, Some(kept));
    lemma_default_id(models);
    setup_laws::law_setup_then_remove(settings, proxy, models, gateway::default_id(models));
    if !provider::provider_in(settings) {
        let x = provider::without_provider(u);
        entry_count::law_write_then_remove(settings, proxy, models);
        provider_laws::law_remove_undoes_write(settings, proxy, models);
        setup_laws::lemma_trimmed_tidied(blocks::without_blank_head(settings));
        assert(text::trimmed_end(left) == text::trimmed_end(x));
        assert(blocks::tidied(left) == blocks::tidied(x));
        entry_count::lemma_count_tidied(left);
        entry_count::lemma_count_tidied(x);
        entry_count::lemma_provider_in(left);
        entry_count::lemma_provider_in(x);
    }
}

/// A setup keeps the default model only where none is kept, and never without being asked
/// to change it.
pub proof fn law_first_default_is_kept(
    f: ConfigFiles,
    proxy: Seq<char>,
    models: Seq<(Seq<char>, Seq<char>)>,
    set_default: bool,
)
    ensures
        forall|i: int|
            0 <= i < actions::setup_plan(f, proxy, models, set_default).len() ==> ((
            #[trigger] actions::setup_plan(f, proxy, models, set_default)[i]) is SaveDefault <==> i
                == 0 && set_default && !f.saved_exists),
{
}

/// A setup gives the credentials the gateway's key, and a removal takes it away and leaves
/// the rest. This leaves out credentials whose first line of keys is the last one and is
/// not ended.
pub proof fn law_credentials(cred: Seq<char>)
    requires
        !credential_laws::hanging(cred) || credentials::key_in(cred),
    ensures
        credentials::key_in(actions::setup_cred(cred, true)),
        !credentials::key_in(actions::removed_cred(actions::setup_cred(cred, true))),
{
    credential_laws::law_key_written(cred);
    let w = actions::setup_cred(cred, true);
    credential_laws::law_key_removed(w);
    let c = credentials::without_key(w);
    if text::blank(c) {
        credential_laws::lemma_empty_keys();
    }
}

} // verus!
