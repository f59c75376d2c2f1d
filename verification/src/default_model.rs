//! The default model in the settings: pointing it at the gateway, keeping what stood
//! there before, and putting that back.

use vstd::prelude::*;

use crate::blocks;
use crate::lines;
use crate::provider;
use crate::text;

verus! {

/// The key of the top-level block that names the default model.
pub const DEFAULT_BLOCK: &'static str = "agent-default-model";

/// The name of the file that keeps the block that stood there before.
pub const DEFAULT_MODEL_BACKUP: &'static str = ".ais-default-model.bak";

/// The block that makes the gateway's model `id` the default.
pub open spec fn default_text(id: Seq<char>) -> Seq<char> {
    provider::line_text("agent-default-model:"@, ""@) + provider::line_text(
        "  provider: "@,
        "ais-codex"@,
    ) + provider::line_text("  model: "@, id) + provider::line_text("  reasoningEffort: "@, "high"@)
}

/// The block that makes the official provider's model the default.
pub open spec fn official_text() -> Seq<char> {
    provider::line_text("agent-default-model:"@, ""@) + provider::line_text(
        "  provider: "@,
        "deepseek-official"@,
    ) + provider::line_text("  model: "@, "deepseek-v4-flash"@) + provider::line_text(
        "  reasoningEffort: "@,
        "high"@,
    )
}

/// `settings` with the gateway's model `id` as the default.
pub open spec fn with_default_model(settings: Seq<char>, id: Seq<char>) -> Seq<char> {
    let bs = blocks::blocks_of(settings);
    if blocks::has_block(bs, DEFAULT_BLOCK@) {
        lines::with_nl(
            blocks::render(
                blocks::mapped(bs, blocks::replacing(DEFAULT_BLOCK@, default_text(id))),
            ),
        )
    } else {
        text::trimmed_end(settings) + seq!['\n', '\n'] + default_text(id)
    }
}

/// Some line of `block` names the gateway as the provider.
pub open spec fn names_gateway(block: Seq<char>) -> bool {
    exists|i: int|
        0 <= i < lines::lines_of(block).len() && text::trimmed(
            #[trigger] lines::lines_of(block)[i],
        ) == "provider: ais-codex"@
}

pub open spec fn clearing() -> spec_fn(Seq<char>, Seq<char>) -> Seq<char> {
    |k: Seq<char>, t: Seq<char>|
        if k == DEFAULT_BLOCK@ && names_gateway(t) {
            official_text()
        } else {
            lines::with_nl(t)
        }
}

/// Some default-model block names the gateway.
pub open spec fn default_names_gateway(bs: Seq<(Seq<char>, Seq<char>)>) -> bool {
    exists|i: int|
        0 <= i < bs.len() && (#[trigger] bs[i]).0 == DEFAULT_BLOCK@ && names_gateway(bs[i].1)
}

/// `settings` with the official default in place of one that names the gateway.
pub open spec fn without_gateway_default(settings: Seq<char>) -> Seq<char> {
    let bs = blocks::blocks_of(settings);
    if default_names_gateway(bs) {
        lines::with_nl(blocks::render(blocks::mapped(bs, clearing())))
    } else {
        lines::with_nl(settings)
    }
}

/// The position of the first block with the key `key`; the number of blocks where there
/// is none.
pub open spec fn block_at(bs: Seq<(Seq<char>, Seq<char>)>, key: Seq<char>) -> int
    decreases bs.len(),
{
    if bs.len() == 0 || bs[0].0 == key {
        0
    } else {
        1 + block_at(bs.skip(1), key)
    }
}

/// What is kept of `settings` for later: the default-model block, nothing where there is
/// none.
pub open spec fn saved_default(settings: Seq<char>) -> Seq<char> {
    let bs = blocks::blocks_of(settings);
    let i = block_at(bs, DEFAULT_BLOCK@);
    if i < bs.len() {
        bs[i].1
    } else {
        Seq::empty()
    }
}

/// The provider that the first line of its kind names.
pub open spec fn first_provider(ls: Seq<Seq<char>>) -> Option<Seq<char>>
    decreases ls.len(),
{
    if ls.len() == 0 {
        None
    } else if "provider:"@.is_prefix_of(text::trimmed(ls[0])) {
        Some(text::trimmed(text::trimmed(ls[0]).skip("provider:"@.len() as int)))
    } else {
        first_provider(ls.skip(1))
    }
}

/// The provider of the default model.
pub open spec fn current_provider(settings: Seq<char>) -> Option<Seq<char>> {
    first_provider(lines::lines_of(saved_default(settings)))
}

/// `settings` with the default model that `saved` keeps: the block, or none where it is
/// blank; the official default where nothing was kept. A default that does not point at
/// the gateway is left alone.
pub open spec fn restored(saved: Option<Seq<char>>, settings: Seq<char>) -> Seq<char> {
    if current_provider(settings) != Some(provider::PROVIDER_ID@) {
        lines::with_nl(settings)
    } else {
        match saved {
            Some(b) => if text::blank(b) {
                blocks::without_block(settings, DEFAULT_BLOCK@)
            } else {
                blocks::with_block(settings, DEFAULT_BLOCK@, b)
            },
            None => without_gateway_default(settings),
        }
    }
}

pub proof fn lemma_block_at(bs: Seq<(Seq<char>, Seq<char>)>, key: Seq<char>)
    ensures
        0 <= block_at(bs, key) <= bs.len(),
        forall|i: int| 0 <= i < block_at(bs, key) ==> (#[trigger] bs[i]).0 != key,
        block_at(bs, key) < bs.len() ==> bs[block_at(bs, key)].0 == key,
        block_at(bs, key) < bs.len() <==> blocks::has_block(bs, key),
    decreases bs.len(),
{
    if bs.len() > 0 && bs[0].0 != key {
        let rest = bs.skip(1);
        lemma_block_at(rest, key);
        assert forall|i: int| 0 <= i < block_at(bs, key) implies (#[trigger] bs[i]).0 != key by {
            if i > 0 {
                assert(bs[i] == rest[i - 1]);
            }
        }
        if blocks::has_block(rest, key) {
            let i = choose|i: int| 0 <= i < rest.len() && (#[trigger] rest[i]).0 == key;
            assert(bs[i + 1].0 == key);
        }
        if blocks::has_block(bs, key) {
            let i = choose|i: int| 0 <= i < bs.len() && (#[trigger] bs[i]).0 == key;
            assert(rest[i - 1].0 == key);
        }
    }
}

pub proof fn lemma_block_at_unique(bs: Seq<(Seq<char>, Seq<char>)>, key: Seq<char>, n: int)
    requires
        0 <= n < bs.len(),
        bs[n].0 == key,
        forall|i: int| 0 <= i < n ==> (#[trigger] bs[i]).0 != key,
    ensures
        block_at(bs, key) == n,
{
    lemma_block_at(bs, key);
    let m = block_at(bs, key);
    if m < n {
        assert(bs[m].0 != key);
    } else if n < m {
        assert(bs[n].0 != key);
    }
}

fn line(label: &str, value: &str) -> (r: String)
    ensures
        r@ == provider::line_text(label@, value@),
{
    let mut out = text::joined_pair(label, value);
    out.push('\n');
    out
}

/// A default-model block.
fn default_block(from: &str, model: &str) -> (r: String)
    ensures
        r@ == provider::line_text("agent-default-model:"@, ""@) + provider::line_text(
            "  provider: "@,
            from@,
        ) + provider::line_text("  model: "@, model@) + provider::line_text(
            "  reasoningEffort: "@,
            "high"@,
        ),
{
    let mut out = line("agent-default-model:", "");
    out.append(line("  provider: ", from).as_str());
    out.append(line("  model: ", model).as_str());
    out.append(line("  reasoningEffort: ", "high").as_str());
    out
}

/// `settings` with the gateway's model `model_id` as the default.
pub fn upsert_default_model(settings: &str, model_id: &str) -> (r: String)
    ensures
        r@ == with_default_model(settings@, model_id@),
{
    let block = default_block("ais-codex", model_id);
    let bs = blocks::split_top_level(settings);
    if blocks::find_block(&bs, DEFAULT_BLOCK).is_none() {
        let mut out = text::trim_end(settings);
        out.push('\n');
        out.push('\n');
        out.append(block.as_str());
        assert(text::trimmed_end(settings@).push('\n').push('\n') == text::trimmed_end(settings@)
            + seq!['\n', '\n']);
        return out;
    }
    blocks::replace_top_level_block(settings, DEFAULT_BLOCK, block.as_str())
}

/// Some line of `block` names the gateway as the provider.
fn block_names_gateway(block: &str) -> (r: bool)
    ensures
        r == names_gateway(block@),
{
    let ls = lines::split_lines(block);
    let ghost all = lines::lines_of(block@);
    let mut i: usize = 0;
    while i < ls.len()
        invariant
            i <= ls.len(),
            all == lines::lines_of(block@),
            all == lines::texts(ls@),
            forall|j: int|
                0 <= j < i ==> text::trimmed(#[trigger] all[j]) != "provider: ais-codex"@,
        decreases ls.len() - i,
    {
        assert(all[i as int] == ls@[i as int]@);
        if text::same_text(text::trim(ls[i].as_str()).as_str(), "provider: ais-codex") {
            return true;
        }
        i += 1;
    }
    false
}

/// `settings` with the official default in place of one that names the gateway.
pub fn clear_ais_default_model(settings: &str) -> (r: String)
    ensures
        r@ == without_gateway_default(settings@),
{
    let bs = blocks::split_top_level(settings);
    let ghost all = blocks::pairs(bs@);
    let ghost f = clearing();
    let mut out = String::new();
    let mut changed: bool = false;
    let mut i: usize = 0;
    assert(blocks::mapped(all.take(0), f).map_values(|b: (Seq<char>, Seq<char>)| b.1).len() == 0);
    while i < bs.len()
        invariant
            i <= bs.len(),
            all == blocks::pairs(bs@),
            f == clearing(),
            out@ == blocks::render(blocks::mapped(all.take(i as int), f)),
            changed == exists|j: int|
                0 <= j < i && (#[trigger] all[j]).0 == DEFAULT_BLOCK@ && names_gateway(all[j].1),
        decreases bs.len() - i,
    {
        proof {
            blocks::lemma_mapped_step(all, f, i as int);
            assert(all[i as int] == (bs@[i as int].0@, bs@[i as int].1@));
        }
        if text::same_text(bs[i].0.as_str(), DEFAULT_BLOCK) && block_names_gateway(
            bs[i].1.as_str(),
        ) {
            out.append(default_block("deepseek-official", "deepseek-v4-flash").as_str());
            changed = true;
        } else {
            out.append(lines::ensure_nl(bs[i].1.clone()).as_str());
        }
        i += 1;
    }
    if !changed {
        return lines::ensure_nl(settings.to_owned());
    }
    assert(all.take(all.len() as int) == all);
    lines::ensure_nl(out)
}

/// The default-model block of `settings`, nothing where there is none.
pub fn default_model_block(settings: &str) -> (r: String)
    ensures
        r@ == saved_default(settings@),
{
    let bs = blocks::split_top_level(settings);
    let ghost all = blocks::pairs(bs@);
    proof {
        lemma_block_at(all, DEFAULT_BLOCK@);
    }
    match blocks::find_block(&bs, DEFAULT_BLOCK) {
        Some(i) => {
            proof {
                lemma_block_at_unique(all, DEFAULT_BLOCK@, i as int);
            }
            bs[i].1.clone()
        },
        None => String::new(),
    }
}

/// What to write into the file that keeps the default model: nothing where the file is
/// there already, so that the first copy stays.
pub fn save_default_model_backup(exists: bool, settings: &str) -> (r: Option<String>)
    ensures
        r is None <==> exists,
        r matches Some(b) ==> b@ == saved_default(settings@),
{
    if exists {
        None
    } else {
        Some(default_model_block(settings))
    }
}

/// The provider of the default model.
fn read_provider(settings: &str) -> (r: Option<String>)
    ensures
        match r {
            Some(p) => current_provider(settings@) == Some(p@),
            None => current_provider(settings@) is None,
        },
{
    let block = default_model_block(settings);
    let ls = lines::split_lines(block.as_str());
    let ghost all = lines::texts(ls@);
    let mut i: usize = 0;
    assert(all.skip(0) == all);
    while i < ls.len()
        invariant
            i <= ls.len(),
            all == lines::texts(ls@),
            all == lines::lines_of(saved_default(settings@)),
            first_provider(all) == first_provider(all.skip(i as int)),
        decreases ls.len() - i,
    {
        let l = text::trim(ls[i].as_str());
        proof {
            assert(all.skip(i as int)[0] == ls@[i as int]@);
            assert(all.skip(i as int).skip(1) == all.skip(i + 1));
        }
        if text::starts_with(l.as_str(), "provider:") {
            let n = text::char_count("provider:");
            let rest = text::slice(l.as_str(), n, text::char_count(l.as_str()));
            assert(rest@ == l@.skip(n as int));
            return Some(text::trim(rest.as_str()));
        }
        i += 1;
    }
    assert(all.skip(i as int).len() == 0);
    None
}

/// `settings` with the default model that was kept, where it points at the gateway now.
/// `saved` is what the file holds, nothing where it cannot be read.
pub fn restore_default_model_at(saved: Option<&str>, settings: &str) -> (r: String)
    ensures
        r@ == restored(
            match saved {
                Some(b) => Some(b@),
                None => None,
            },
            settings@,
        ),
{
    let points_here = match read_provider(settings) {
        Some(p) => text::same_text(p.as_str(), provider::PROVIDER_ID),
        None => false,
    };
    if !points_here {
        return lines::ensure_nl(settings.to_owned());
    }
    match saved {
        Some(b) => {
            if text::is_blank(b) {
                blocks::remove_top_level_block(settings, DEFAULT_BLOCK)
            } else {
                blocks::replace_top_level_block(settings, DEFAULT_BLOCK, b)
            }
        },
        None => clear_ais_default_model(settings),
    }
}

/// `settings` with the default model that was kept; where the file's place is not known
/// the official default takes the place of one that names the gateway.
pub fn restore_default_model(known: bool, saved: Option<&str>, settings: &str) -> (r: String)
    ensures
        !known ==> r@ == without_gateway_default(settings@),
        known ==> r@ == restored(
            match saved {
                Some(b) => Some(b@),
                None => None,
            },
            settings@,
        ),
{
    if known {
        restore_default_model_at(saved, settings)
    } else {
        clear_ais_default_model(settings)
    }
}

} // verus!
