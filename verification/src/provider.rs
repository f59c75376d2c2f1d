//! The gateway's provider entry in the settings: writing it, replacing it and taking
//! it out, with every other entry left as it stands.

use vstd::prelude::*;

use crate::blocks;
use crate::lines;
use crate::text;

verus! {

/// The key of the provider entry.
pub const PROVIDER_ID: &'static str = "ais-codex";

/// The key of the top-level block that holds the provider entries.
pub const PROVIDERS_BLOCK: &'static str = "llm-pi-ai";

/// A model that the gateway offers.
pub struct GatewayModel {
    pub id: String,
    pub name: String,
}

/// The id and the name of each model.
pub open spec fn model_pairs(models: Seq<GatewayModel>) -> Seq<(Seq<char>, Seq<char>)> {
    models.map_values(|m: GatewayModel| (m.id@, m.name@))
}

/// A line with `label`, then `value`.
pub open spec fn line_text(label: Seq<char>, value: Seq<char>) -> Seq<char> {
    (label + value).push('\n')
}

/// The address that requests of the provider go to.
pub open spec fn base_url_text(proxy: Seq<char>) -> Seq<char> {
    proxy + "/codex/v1"@
}

/// The two lines of each model.
pub open spec fn model_lines(models: Seq<(Seq<char>, Seq<char>)>) -> Seq<Seq<char>>
    decreases models.len(),
{
    if models.len() == 0 {
        Seq::empty()
    } else {
        model_lines(models.drop_last()) + seq![
            line_text("        - id: "@, models.last().0),
            line_text("          name: "@, models.last().1),
        ]
    }
}

/// The lines of the provider entry.
pub open spec fn provider_lines(
    proxy: Seq<char>,
    models: Seq<(Seq<char>, Seq<char>)>,
) -> Seq<Seq<char>> {
    seq![
        line_text("    ais-codex:"@, ""@),
        line_text("      displayName: "@, "AIS Switch (Codex)"@),
        line_text("      api: "@, "openai-completions"@),
        line_text("      baseURL: "@, base_url_text(proxy)),
        line_text("      apiKeyEnv: "@, "AIS_CODEX_API_KEY"@),
        line_text("      defaultContextWindow: "@, "1000000"@),
        line_text("      defaultMaxTokens: "@, "131072"@),
        line_text("      models:"@, ""@),
    ] + model_lines(models)
}

/// The provider entry.
pub open spec fn provider_text(
    proxy: Seq<char>,
    models: Seq<(Seq<char>, Seq<char>)>,
) -> Seq<char> {
    lines::joined(provider_lines(proxy, models))
}

/// A top-level block with the provider entry and no other.
pub open spec fn section_text(
    proxy: Seq<char>,
    models: Seq<(Seq<char>, Seq<char>)>,
) -> Seq<char> {
    line_text("llm-pi-ai:"@, ""@) + line_text("  providers:"@, ""@) + provider_text(proxy, models)
}

/// The line under which the provider entries stand.
pub open spec fn is_providers_line(line: Seq<char>) -> bool {
    text::trimmed_end(line) == "  providers:"@
}

/// The position of the first providers line; the number of lines where there is none.
pub open spec fn providers_at(ls: Seq<Seq<char>>) -> int
    decreases ls.len(),
{
    if ls.len() == 0 || is_providers_line(ls[0]) {
        0
    } else {
        1 + providers_at(ls.skip(1))
    }
}

/// `line` ends the provider entries: it is neither indented nor blank.
pub open spec fn stops(line: Seq<char>) -> bool {
    !(line.len() > 0 && line[0] == ' ') && !text::blank(line)
}

/// The number of lines before the first one that ends the provider entries.
pub open spec fn run_len(ls: Seq<Seq<char>>) -> int
    decreases ls.len(),
{
    if ls.len() == 0 || stops(ls[0]) {
        0
    } else {
        1 + run_len(ls.skip(1))
    }
}

/// The key of the entry that `line` belongs to, where the line before it belongs to
/// `owner`.
pub open spec fn owner_of(line: Seq<char>, owner: Option<Seq<char>>) -> Option<Seq<char>> {
    match blocks::child_key(line) {
        Some(k) => Some(k),
        None => owner,
    }
}

/// `owner` is an entry other than the gateway's.
pub open spec fn other_entry(owner: Option<Seq<char>>) -> bool {
    owner is Some && owner != Some(PROVIDER_ID@)
}

/// The lines that belong to an entry other than the gateway's. A line belongs to the
/// entry whose key line is the last one at or before it.
pub open spec fn kept(ls: Seq<Seq<char>>, owner: Option<Seq<char>>) -> Seq<Seq<char>>
    decreases ls.len(),
{
    if ls.len() == 0 {
        Seq::empty()
    } else {
        let o = owner_of(ls[0], owner);
        let rest = kept(ls.skip(1), o);
        if other_entry(o) {
            seq![ls[0]] + rest
        } else {
            rest
        }
    }
}

/// The lines of a block up to its providers line.
pub open spec fn before_entries(ls: Seq<Seq<char>>) -> Seq<Seq<char>> {
    ls.take(providers_at(ls) + 1)
}

/// The lines of the other entries of a block.
pub open spec fn other_entries(ls: Seq<Seq<char>>) -> Seq<Seq<char>> {
    let rest = ls.skip(providers_at(ls) + 1);
    kept(rest.take(run_len(rest)), None)
}

/// The lines of a block behind its provider entries.
pub open spec fn after_entries(ls: Seq<Seq<char>>) -> Seq<Seq<char>> {
    let rest = ls.skip(providers_at(ls) + 1);
    rest.skip(run_len(rest))
}

/// A block with the gateway's entry in first place, the other entries behind it.
pub open spec fn upserted_block(
    block: Seq<char>,
    proxy: Seq<char>,
    models: Seq<(Seq<char>, Seq<char>)>,
) -> Seq<char> {
    let ls = lines::lines_of(block);
    if providers_at(ls) >= ls.len() {
        section_text(proxy, models)
    } else {
        lines::joined(before_entries(ls)) + provider_text(proxy, models) + lines::joined(
            other_entries(ls),
        ) + lines::joined(after_entries(ls))
    }
}

/// A block without the gateway's entry; nothing where no other entry is left.
pub open spec fn removed_block(block: Seq<char>) -> Seq<char> {
    let ls = lines::lines_of(block);
    if providers_at(ls) >= ls.len() || other_entries(ls).len() == 0 {
        Seq::empty()
    } else {
        lines::joined(before_entries(ls)) + lines::joined(other_entries(ls)) + lines::joined(
            after_entries(ls),
        )
    }
}

pub open spec fn upserting(
    proxy: Seq<char>,
    models: Seq<(Seq<char>, Seq<char>)>,
) -> spec_fn(Seq<char>, Seq<char>) -> Seq<char> {
    |k: Seq<char>, t: Seq<char>|
        if k == PROVIDERS_BLOCK@ {
            upserted_block(t, proxy, models)
        } else {
            lines::with_nl(t)
        }
}

pub open spec fn removing() -> spec_fn(Seq<char>, Seq<char>) -> Seq<char> {
    |k: Seq<char>, t: Seq<char>|
        if k == PROVIDERS_BLOCK@ {
            lines::with_nl(removed_block(t))
        } else {
            lines::with_nl(t)
        }
}

/// `settings` with the gateway's entry in each providers block; with a block of its own
/// at the end where there is none.
pub open spec fn with_provider(
    settings: Seq<char>,
    proxy: Seq<char>,
    models: Seq<(Seq<char>, Seq<char>)>,
) -> Seq<char> {
    let bs = blocks::blocks_of(settings);
    if blocks::has_block(bs, PROVIDERS_BLOCK@) {
        lines::with_nl(blocks::render(blocks::mapped(bs, upserting(proxy, models))))
    } else {
        blocks::appended(settings, section_text(proxy, models))
    }
}

/// `settings` without the gateway's entry, and without a providers block that holds no
/// other.
pub open spec fn without_provider(settings: Seq<char>) -> Seq<char> {
    let bs = blocks::blocks_of(settings);
    if blocks::has_block(bs, PROVIDERS_BLOCK@) {
        text::trimmed_end(blocks::render(blocks::mapped(bs, removing()))).push('\n')
    } else {
        lines::with_nl(settings)
    }
}

/// `line` opens the gateway's entry.
pub open spec fn is_provider_line(line: Seq<char>) -> bool {
    "    ais-codex:"@.is_prefix_of(line)
}

/// Some line of `settings` opens the gateway's entry.
pub open spec fn provider_in(settings: Seq<char>) -> bool {
    exists|i: int|
        0 <= i < lines::lines_of(settings).len() && is_provider_line(
            #[trigger] lines::lines_of(settings)[i],
        )
}

/// The address that requests of the provider go to.
pub fn base_url(proxy: &str) -> (r: String)
    ensures
        r@ == base_url_text(proxy@),
{
    text::joined_pair(proxy, "/codex/v1")
}

fn line(label: &str, value: &str) -> (r: String)
    ensures
        r@ == line_text(label@, value@),
{
    let mut out = text::joined_pair(label, value);
    out.push('\n');
    out
}

/// The provider entry.
pub fn provider_yaml(proxy: &str, models: &Vec<GatewayModel>) -> (r: String)
    ensures
        r@ == provider_text(proxy@, model_pairs(models@)),
{
    let url = base_url(proxy);
    let mut out: Vec<String> = Vec::new();
    out.push(line("    ais-codex:", ""));
    out.push(line("      displayName: ", "AIS Switch (Codex)"));
    out.push(line("      api: ", "openai-completions"));
    out.push(line("      baseURL: ", url.as_str()));
    out.push(line("      apiKeyEnv: ", "AIS_CODEX_API_KEY"));
    out.push(line("      defaultContextWindow: ", "1000000"));
    out.push(line("      defaultMaxTokens: ", "131072"));
    out.push(line("      models:", ""));
    let ghost all = model_pairs(models@);
    let ghost fixed = lines::texts(out@);
    assert(fixed + model_lines(all.take(0)) == provider_lines(proxy@, all.take(0)));
    assert(fixed + model_lines(all.take(0)) == fixed);
    let mut i: usize = 0;
    while i < models.len()
        invariant
            i <= models.len(),
            all == model_pairs(models@),
            lines::texts(out@) == fixed + model_lines(all.take(i as int)),
        decreases models.len() - i,
    {
        let ghost was = lines::texts(out@);
        out.push(line("        - id: ", models[i].id.as_str()));
        out.push(line("          name: ", models[i].name.as_str()));
        proof {
            let next = all.take(i + 1);
            assert(next.drop_last() == all.take(i as int));
            assert(next.last() == all[i as int]);
            let two = seq![
                line_text("        - id: "@, all[i as int].0),
                line_text("          name: "@, all[i as int].1),
            ];
            assert(lines::texts(out@) == was + two);
            assert(fixed + model_lines(all.take(i as int)) + two == fixed + (model_lines(
                all.take(i as int),
            ) + two));
        }
        i += 1;
    }
    assert(all.take(all.len() as int) == all);
    assert(lines::texts(out@) == provider_lines(proxy@, all));
    assert(lines::texts(out@).subrange(0, out@.len() as int) == lines::texts(out@));
    lines::join(&out, 0, out.len())
}

/// A top-level block with the provider entry and no other.
pub fn llm_pi_ai_section(proxy: &str, models: &Vec<GatewayModel>) -> (r: String)
    ensures
        r@ == section_text(proxy@, model_pairs(models@)),
{
    let mut out = line("llm-pi-ai:", "");
    out.append(line("  providers:", "").as_str());
    out.append(provider_yaml(proxy, models).as_str());
    out
}

pub proof fn lemma_providers_at(ls: Seq<Seq<char>>)
    ensures
        0 <= providers_at(ls) <= ls.len(),
        forall|i: int| 0 <= i < providers_at(ls) ==> !is_providers_line(#[trigger] ls[i]),
        providers_at(ls) < ls.len() ==> is_providers_line(ls[providers_at(ls)]),
    decreases ls.len(),
{
    if ls.len() > 0 && !is_providers_line(ls[0]) {
        let rest = ls.skip(1);
        lemma_providers_at(rest);
        assert forall|i: int| 0 <= i < providers_at(ls) implies !is_providers_line(
            #[trigger] ls[i],
        ) by {
            if i > 0 {
                assert(ls[i] == rest[i - 1]);
            }
        }
    }
}

pub proof fn lemma_providers_at_unique(ls: Seq<Seq<char>>, n: int)
    requires
        0 <= n <= ls.len(),
        forall|i: int| 0 <= i < n ==> !is_providers_line(#[trigger] ls[i]),
        n < ls.len() ==> is_providers_line(ls[n]),
    ensures
        providers_at(ls) == n,
{
    lemma_providers_at(ls);
    let m = providers_at(ls);
    if m < n {
        assert(!is_providers_line(ls[m]));
    } else if n < m {
        assert(!is_providers_line(ls[n]));
    }
}

pub proof fn lemma_run_len(ls: Seq<Seq<char>>)
    ensures
        0 <= run_len(ls) <= ls.len(),
        forall|i: int| 0 <= i < run_len(ls) ==> !stops(#[trigger] ls[i]),
        run_len(ls) < ls.len() ==> stops(ls[run_len(ls)]),
    decreases ls.len(),
{
    if ls.len() > 0 && !stops(ls[0]) {
        let rest = ls.skip(1);
        lemma_run_len(rest);
        assert forall|i: int| 0 <= i < run_len(ls) implies !stops(#[trigger] ls[i]) by {
            if i > 0 {
                assert(ls[i] == rest[i - 1]);
            }
        }
    }
}

pub proof fn lemma_run_len_unique(ls: Seq<Seq<char>>, n: int)
    requires
        0 <= n <= ls.len(),
        forall|i: int| 0 <= i < n ==> !stops(#[trigger] ls[i]),
        n < ls.len() ==> stops(ls[n]),
    ensures
        run_len(ls) == n,
{
    lemma_run_len(ls);
    let m = run_len(ls);
    if m < n {
        assert(!stops(ls[m]));
    } else if n < m {
        assert(!stops(ls[n]));
    }
}

/// Where the provider entries of a block stand: the position of the providers line, and
/// that of the first line behind the entries.
fn find_entries(ls: &Vec<String>) -> (r: Option<(usize, usize)>)
    ensures
        r is None <==> providers_at(lines::texts(ls@)) >= ls.len(),
        r matches Some((p, e)) ==> p < e <= ls.len() && p == providers_at(lines::texts(ls@)) && e
            == p + 1 + run_len(lines::texts(ls@).skip(p + 1)),
{
    let ghost all = lines::texts(ls@);
    let mut p: usize = 0;
    while p < ls.len() && !text::same_text(text::trim_end(ls[p].as_str()).as_str(), "  providers:")
        invariant
            p <= ls.len(),
            all == lines::texts(ls@),
            forall|i: int| 0 <= i < p ==> !is_providers_line(#[trigger] all[i]),
        decreases ls.len() - p,
    {
        assert(all[p as int] == ls@[p as int]@);
        p += 1;
    }
    proof {
        if p < ls.len() {
            assert(all[p as int] == ls@[p as int]@);
        }
        lemma_providers_at_unique(all, p as int);
    }
    if p == ls.len() {
        return None;
    }
    let ghost rest = all.skip(p + 1);
    let mut e: usize = p + 1;
    while e < ls.len()
        invariant
            p < e <= ls.len(),
            all == lines::texts(ls@),
            rest == all.skip(p + 1),
            p == providers_at(all),
            p < all.len(),
            forall|i: int| 0 <= i < e - p - 1 ==> !stops(#[trigger] rest[i]),
        decreases ls.len() - e,
    {
        assert(rest[e - p - 1] == ls@[e as int]@);
        let v = text::chars_of(ls[e].as_str());
        if !(v.len() > 0 && v[0] == ' ') && !text::is_blank(ls[e].as_str()) {
            proof {
                lemma_run_len_unique(rest, e - p - 1);
            }
            return Some((p, e));
        }
        e += 1;
    }
    proof {
        lemma_run_len_unique(rest, e - p - 1);
    }
    Some((p, e))
}

/// The lines from `from` up to `to` that belong to an entry other than the gateway's.
fn keep_others(ls: &Vec<String>, from: usize, to: usize) -> (r: Vec<String>)
    requires
        from <= to <= ls.len(),
    ensures
        lines::texts(r@) == kept(lines::texts(ls@).subrange(from as int, to as int), None),
{
    let ghost all = lines::texts(ls@).subrange(from as int, to as int);
    let mut out: Vec<String> = Vec::new();
    let mut keep: bool = false;
    let ghost mut owner: Option<Seq<char>> = None;
    let mut i: usize = from;
    assert(all.skip(0) == all);
    assert(lines::texts(out@) + kept(all, None) == kept(all, None));
    while i < to
        invariant
            from <= i <= to <= ls.len(),
            all == lines::texts(ls@).subrange(from as int, to as int),
            keep == other_entry(owner),
            lines::texts(out@) + kept(all.skip(i - from), owner) == kept(all, None),
        decreases to - i,
    {
        let ghost rest = all.skip(i - from);
        let ghost was = lines::texts(out@);
        proof {
            assert(rest[0] == ls@[i as int]@);
            assert(rest.skip(1) == all.skip(i + 1 - from));
            owner = owner_of(rest[0], owner);
        }
        match blocks::child_provider_key(ls[i].as_str()) {
            Some(name) => {
                keep = !text::same_text(name.as_str(), PROVIDER_ID);
            },
            None => {},
        }
        if keep {
            out.push(ls[i].clone());
            proof {
                assert(lines::texts(out@) == was.push(rest[0]));
                assert(was.push(rest[0]) + kept(rest.skip(1), owner) == was + (seq![rest[0]] + kept(
                    rest.skip(1),
                    owner,
                )));
            }
        }
        i += 1;
    }
    assert(all.skip(to - from).len() == 0);
    assert(lines::texts(out@) + kept(all.skip(to - from), owner) == lines::texts(out@));
    out
}

/// A block with the gateway's entry in first place, the other entries behind it.
pub fn upsert_provider_inside_llm_pi_ai(
    block: &str,
    proxy: &str,
    models: &Vec<GatewayModel>,
) -> (r: String)
    ensures
        r@ == upserted_block(block@, proxy@, model_pairs(models@)),
{
    let ls = lines::split_lines(block);
    let ghost all = lines::texts(ls@);
    match find_entries(&ls) {
        None => llm_pi_ai_section(proxy, models),
        Some((p, e)) => {
            let others = keep_others(&ls, p + 1, e);
            let mut out = lines::join(&ls, 0, p + 1);
            out.append(provider_yaml(proxy, models).as_str());
            out.append(lines::join(&others, 0, others.len()).as_str());
            out.append(lines::join(&ls, e, ls.len()).as_str());
            proof {
                let rest = all.skip(p + 1);
                assert(all.subrange(0, p + 1) == before_entries(all));
                assert(all.subrange(p + 1, e as int) == rest.take(run_len(rest)));
                assert(all.subrange(e as int, ls@.len() as int) == rest.skip(run_len(rest)));
                assert(lines::texts(others@).subrange(0, others@.len() as int) == other_entries(
                    all,
                ));
            }
            out
        },
    }
}

/// A block without the gateway's entry; nothing where no other entry is left.
pub fn remove_provider_inside_llm_pi_ai(block: &str) -> (r: String)
    ensures
        r@ == removed_block(block@),
{
    let ls = lines::split_lines(block);
    let ghost all = lines::texts(ls@);
    match find_entries(&ls) {
        None => String::new(),
        Some((p, e)) => {
            let others = keep_others(&ls, p + 1, e);
            proof {
                let rest = all.skip(p + 1);
                assert(all.subrange(0, p + 1) == before_entries(all));
                assert(all.subrange(p + 1, e as int) == rest.take(run_len(rest)));
                assert(all.subrange(e as int, ls@.len() as int) == rest.skip(run_len(rest)));
                assert(lines::texts(others@).subrange(0, others@.len() as int) == other_entries(
                    all,
                ));
            }
            if others.len() == 0 {
                return String::new();
            }
            let mut out = lines::join(&ls, 0, p + 1);
            out.append(lines::join(&others, 0, others.len()).as_str());
            out.append(lines::join(&ls, e, ls.len()).as_str());
            out
        },
    }
}

/// `settings` with the gateway's entry.
pub fn upsert_ais_codex_provider(
    settings: &str,
    proxy: &str,
    models: &Vec<GatewayModel>,
) -> (r: String)
    ensures
        r@ == with_provider(settings@, proxy@, model_pairs(models@)),
{
    let bs = blocks::split_top_level(settings);
    if blocks::find_block(&bs, PROVIDERS_BLOCK).is_none() {
        let section = llm_pi_ai_section(proxy, models);
        return blocks::append_block(settings, section.as_str());
    }
    let ghost all = blocks::pairs(bs@);
    let ghost f = upserting(proxy@, model_pairs(models@));
    let mut out = String::new();
    let mut i: usize = 0;
    assert(blocks::mapped(all.take(0), f).map_values(|b: (Seq<char>, Seq<char>)| b.1).len() == 0);
    while i < bs.len()
        invariant
            i <= bs.len(),
            all == blocks::pairs(bs@),
            f == upserting(proxy@, model_pairs(models@)),
            out@ == blocks::render(blocks::mapped(all.take(i as int), f)),
        decreases bs.len() - i,
    {
        proof {
            blocks::lemma_mapped_step(all, f, i as int);
        }
        if text::same_text(bs[i].0.as_str(), PROVIDERS_BLOCK) {
            out.append(upsert_provider_inside_llm_pi_ai(bs[i].1.as_str(), proxy, models).as_str());
        } else {
            out.append(lines::ensure_nl(bs[i].1.clone()).as_str());
        }
        i += 1;
    }
    assert(all.take(all.len() as int) == all);
    lines::ensure_nl(out)
}

/// `settings` without the gateway's entry.
pub fn remove_ais_codex_provider(settings: &str) -> (r: String)
    ensures
        r@ == without_provider(settings@),
{
    let bs = blocks::split_top_level(settings);
    if blocks::find_block(&bs, PROVIDERS_BLOCK).is_none() {
        return lines::ensure_nl(settings.to_owned());
    }
    let ghost all = blocks::pairs(bs@);
    let ghost f = removing();
    let mut out = String::new();
    let mut i: usize = 0;
    assert(blocks::mapped(all.take(0), f).map_values(|b: (Seq<char>, Seq<char>)| b.1).len() == 0);
    while i < bs.len()
        invariant
            i <= bs.len(),
            all == blocks::pairs(bs@),
            f == removing(),
            out@ == blocks::render(blocks::mapped(all.take(i as int), f)),
        decreases bs.len() - i,
    {
        proof {
            blocks::lemma_mapped_step(all, f, i as int);
        }
        if text::same_text(bs[i].0.as_str(), PROVIDERS_BLOCK) {
            let left = remove_provider_inside_llm_pi_ai(bs[i].1.as_str());
            out.append(lines::ensure_nl(left).as_str());
        } else {
            out.append(lines::ensure_nl(bs[i].1.clone()).as_str());
        }
        i += 1;
    }
    assert(all.take(all.len() as int) == all);
    let mut out = text::trim_end(out.as_str());
    out.push('\n');
    out
}

/// Some line of `settings` opens the gateway's entry.
pub fn has_provider(settings: &str) -> (r: bool)
    ensures
        r == provider_in(settings@),
{
    let ls = lines::split_lines(settings);
    let ghost all = lines::lines_of(settings@);
    let mut i: usize = 0;
    while i < ls.len()
        invariant
            i <= ls.len(),
            all == lines::lines_of(settings@),
            all == lines::texts(ls@),
            forall|j: int| 0 <= j < i ==> !is_provider_line(#[trigger] all[j]),
        decreases ls.len() - i,
    {
        assert(all[i as int] == ls@[i as int]@);
        if text::starts_with(ls[i].as_str(), "    ais-codex:") {
            return true;
        }
        i += 1;
    }
    false
}

} // verus!
