//! What holds of the provider entry whatever the settings hold: a later write replaces
//! an earlier one, removal undoes a write, and other entries and blocks stay.

use vstd::prelude::*;

use crate::blocks;
use crate::lines;
use crate::provider;
use crate::text;

verus! {

/// `s` holds no newline.
pub open spec fn no_nl(s: Seq<char>) -> bool {
    forall|i: int| 0 <= i < s.len() ==> s[i] != '\n'
}

/// The ids and names of the models hold no newline.
pub open spec fn plain_models(models: Seq<(Seq<char>, Seq<char>)>) -> bool {
    forall|i: int| 0 <= i < models.len() ==> no_nl((#[trigger] models[i]).0) && no_nl(models[i].1)
}

/// Lines that make up one entry, the gateway's.
pub open spec fn entry_lines(ls: Seq<Seq<char>>) -> bool {
    &&& ls.len() > 0
    &&& lines::ended_lines(ls)
    &&& forall|i: int| 0 <= i < ls.len() ==> (#[trigger] ls[i])[0] == ' '
    &&& blocks::child_key(ls[0]) == Some(provider::PROVIDER_ID@)
    &&& forall|i: int| 1 <= i < ls.len() ==> blocks::child_key(#[trigger] ls[i]) is None
}

/// A line with more than four spaces at its start.
pub open spec fn deep(line: Seq<char>) -> bool {
    blocks::indented(line) && line.len() > 4 && line[4] == ' '
}

pub proof fn lemma_space_line(l: Seq<char>)
    requires
        l.len() > 0,
        l[0] == ' ',
    ensures
        blocks::key_of(l) is None,
        !provider::stops(l),
{
    text::lemma_cut(l, ':');
    let n = text::cut(l, ':');
    if n < l.len() {
        assert(n > 0);
        assert(l.take(n)[0] == ' ');
    }
}

proof fn lemma_deep(l: Seq<char>)
    requires
        deep(l),
    ensures
        blocks::child_key(l) is None,
{
    lemma_space_line(l.skip(4));
}

pub proof fn lemma_line_text(label: Seq<char>, value: Seq<char>)
    requires
        no_nl(label),
        no_nl(value),
    ensures
        lines::one_line(provider::line_text(label, value)),
        lines::ended(provider::line_text(label, value)),
        deep(label) ==> deep(provider::line_text(label, value)),
{
    let all = label + value;
    assert forall|i: int| 0 <= i < all.len() implies all[i] != '\n' by {
        if i < label.len() {
            assert(all[i] == label[i]);
        } else {
            assert(all[i] == value[i - label.len()]);
        }
    }
}

proof fn lemma_model_lines(models: Seq<(Seq<char>, Seq<char>)>)
    requires
        plain_models(models),
    ensures
        lines::ended_lines(provider::model_lines(models)),
        forall|i: int|
            0 <= i < provider::model_lines(models).len() ==> deep(
                #[trigger] provider::model_lines(models)[i],
            ),
    decreases models.len(),
{
    if models.len() > 0 {
        reveal_strlit("        - id: ");
        reveal_strlit("          name: ");
        let init = models.drop_last();
        assert forall|i: int| 0 <= i < init.len() implies no_nl((#[trigger] init[i]).0) && no_nl(
            init[i].1,
        ) by {
            assert(init[i] == models[i]);
        }
        lemma_model_lines(init);
        let last = models[models.len() - 1];
        lemma_line_text("        - id: "@, last.0);
        lemma_line_text("          name: "@, last.1);
        let a = provider::model_lines(init);
        let all = provider::model_lines(models);
        assert forall|i: int| 0 <= i < all.len() implies lines::one_line(#[trigger] all[i])
            && lines::ended(all[i]) && deep(all[i]) by {
            if i < a.len() {
                assert(all[i] == a[i]);
            }
        }
    }
}

/// The lines of the provider entry make up one entry, the gateway's.
pub proof fn lemma_provider_lines(proxy: Seq<char>, models: Seq<(Seq<char>, Seq<char>)>)
    requires
        no_nl(proxy),
        plain_models(models),
    ensures
        entry_lines(provider::provider_lines(proxy, models)),
        forall|i: int|
            1 <= i < provider::provider_lines(proxy, models).len() ==> deep(
                #[trigger] provider::provider_lines(proxy, models)[i],
            ),
        lines::lines_of(provider::provider_text(proxy, models)) == provider::provider_lines(
            proxy,
            models,
        ),
{
    let all = provider::provider_lines(proxy, models);
    let tail = provider::model_lines(models);
    lemma_model_lines(models);
    reveal_strlit("");
    reveal_strlit("/codex/v1");
    let url = provider::base_url_text(proxy);
    assert forall|i: int| 0 <= i < url.len() implies url[i] != '\n' by {
        if i < proxy.len() {
            assert(url[i] == proxy[i]);
        } else {
            assert(url[i] == "/codex/v1"@[i - proxy.len()]);
        }
    }
    assert(lines::one_line(all[0]) && lines::ended(all[0]) && all[0][0] == ' '
        && blocks::child_key(all[0]) == Some(provider::PROVIDER_ID@)) by {
        reveal_strlit("    ais-codex:");
        reveal_strlit("ais-codex");
        lemma_line_text("    ais-codex:"@, ""@);
        let rest = all[0].skip(4);
        text::lemma_cut_unique(rest, ':', 9);
        assert(rest.take(9) =~= "ais-codex"@);
    }
    assert(deep(all[1]) && lines::one_line(all[1]) && lines::ended(all[1])) by {
        reveal_strlit("      displayName: ");
        reveal_strlit("AIS Switch (Codex)");
        lemma_line_text("      displayName: "@, "AIS Switch (Codex)"@);
    }
    assert(deep(all[2]) && lines::one_line(all[2]) && lines::ended(all[2])) by {
        reveal_strlit("      api: ");
        reveal_strlit("openai-completions");
        lemma_line_text("      api: "@, "openai-completions"@);
    }
    assert(deep(all[3]) && lines::one_line(all[3]) && lines::ended(all[3])) by {
        reveal_strlit("      baseURL: ");
        lemma_line_text("      baseURL: "@, url);
    }
    assert(deep(all[4]) && lines::one_line(all[4]) && lines::ended(all[4])) by {
        reveal_strlit("      apiKeyEnv: ");
        reveal_strlit("AIS_CODEX_API_KEY");
        lemma_line_text("      apiKeyEnv: "@, "AIS_CODEX_API_KEY"@);
    }
    assert(deep(all[5]) && lines::one_line(all[5]) && lines::ended(all[5])) by {
        reveal_strlit("      defaultContextWindow: ");
        reveal_strlit("1000000");
        lemma_line_text("      defaultContextWindow: "@, "1000000"@);
    }
    assert(deep(all[6]) && lines::one_line(all[6]) && lines::ended(all[6])) by {
        reveal_strlit("      defaultMaxTokens: ");
        reveal_strlit("131072");
        lemma_line_text("      defaultMaxTokens: "@, "131072"@);
    }
    assert(deep(all[7]) && lines::one_line(all[7]) && lines::ended(all[7])) by {
        reveal_strlit("      models:");
        lemma_line_text("      models:"@, ""@);
    }
    assert forall|i: int| 0 <= i < all.len() implies lines::one_line(#[trigger] all[i])
        && lines::ended(all[i]) && all[i][0] == ' ' && (i > 0 ==> deep(all[i])) by {
        if i >= 8 {
            assert(all[i] == tail[i - 8]);
        }
    }
    assert forall|i: int| 1 <= i < all.len() implies blocks::child_key(#[trigger] all[i]) is None by {
        lemma_deep(all[i]);
    }
    lines::lemma_lines_of_joined(all);
}

pub proof fn lemma_kept_plain(
    a: Seq<Seq<char>>,
    b: Seq<Seq<char>>,
    owner: Option<Seq<char>>,
)
    requires
        !provider::other_entry(owner),
        forall|i: int| 0 <= i < a.len() ==> blocks::child_key(#[trigger] a[i]) is None,
    ensures
        provider::kept(a + b, owner) == provider::kept(b, owner),
    decreases a.len(),
{
    if a.len() == 0 {
        assert(a + b == b);
    } else {
        let rest = a.skip(1);
        assert forall|i: int| 0 <= i < rest.len() implies blocks::child_key(
            #[trigger] rest[i],
        ) is None by {
            assert(rest[i] == a[i + 1]);
        }
        lemma_kept_plain(rest, b, owner);
        assert((a + b).skip(1) == rest + b);
        assert((a + b)[0] == a[0]);
    }
}

/// What is kept is kept again.
pub proof fn lemma_kept_again(ls: Seq<Seq<char>>, c: Option<Seq<char>>, d: Option<Seq<char>>)
    requires
        provider::other_entry(c) ==> d == c,
    ensures
        provider::kept(provider::kept(ls, c), d) == provider::kept(ls, c),
    decreases ls.len(),
{
    if ls.len() > 0 {
        let o = provider::owner_of(ls[0], c);
        let rest = provider::kept(ls.skip(1), o);
        if provider::other_entry(o) {
            lemma_kept_again(ls.skip(1), o, o);
            let all = seq![ls[0]] + rest;
            assert(all.skip(1) == rest);
            assert(provider::owner_of(all[0], d) == o);
        } else {
            lemma_kept_again(ls.skip(1), o, d);
        }
    }
}

/// The gateway's entry goes, whatever follows it is kept as before.
proof fn lemma_kept_entry(entry: Seq<Seq<char>>, ls: Seq<Seq<char>>)
    requires
        entry_lines(entry),
    ensures
        provider::kept(entry + provider::kept(ls, None), None) == provider::kept(ls, None),
{
    let k = provider::kept(ls, None);
    let all = entry + k;
    let id = Some(provider::PROVIDER_ID@);
    let rest = entry.skip(1);
    assert(all.skip(1) == rest + k);
    assert(all[0] == entry[0]);
    assert forall|i: int| 0 <= i < rest.len() implies blocks::child_key(
        #[trigger] rest[i],
    ) is None by {
        assert(rest[i] == entry[i + 1]);
    }
    lemma_kept_plain(rest, k, id);
    lemma_kept_again(ls, None, id);
}

/// Whatever holds of all of some lines holds of those that are kept.
pub proof fn lemma_kept_all(
    ls: Seq<Seq<char>>,
    owner: Option<Seq<char>>,
    p: spec_fn(Seq<char>) -> bool,
)
    requires
        forall|i: int| 0 <= i < ls.len() ==> p(#[trigger] ls[i]),
    ensures
        forall|i: int|
            0 <= i < provider::kept(ls, owner).len() ==> p(
                #[trigger] provider::kept(ls, owner)[i],
            ),
    decreases ls.len(),
{
    if ls.len() > 0 {
        let rest = ls.skip(1);
        let o = provider::owner_of(ls[0], owner);
        assert forall|i: int| 0 <= i < rest.len() implies p(#[trigger] rest[i]) by {
            assert(rest[i] == ls[i + 1]);
        }
        lemma_kept_all(rest, o, p);
        let k = provider::kept(ls, owner);
        assert forall|i: int| 0 <= i < k.len() implies p(#[trigger] k[i]) by {
            if provider::other_entry(o) {
                if i > 0 {
                    assert(k[i] == provider::kept(rest, o)[i - 1]);
                } else {
                    assert(k[i] == ls[0]);
                }
            } else {
                assert(k[i] == provider::kept(rest, o)[i]);
            }
        }
    }
}

/// The lines of a block with `entry` as the gateway's entry.
pub open spec fn entry_in_place(ls: Seq<Seq<char>>, entry: Seq<Seq<char>>) -> Seq<Seq<char>> {
    provider::before_entries(ls) + entry + provider::other_entries(ls) + provider::after_entries(ls)
}

/// A block in which `entry` stands as the gateway's entry has the same other lines.
pub proof fn lemma_entry_in_place(ls: Seq<Seq<char>>, entry: Seq<Seq<char>>)
    requires
        entry_lines(entry),
        provider::providers_at(ls) < ls.len(),
    ensures
        provider::providers_at(entry_in_place(ls, entry)) == provider::providers_at(ls),
        provider::providers_at(ls) < entry_in_place(ls, entry).len(),
        provider::before_entries(entry_in_place(ls, entry)) == provider::before_entries(ls),
        provider::other_entries(entry_in_place(ls, entry)) == provider::other_entries(ls),
        provider::after_entries(entry_in_place(ls, entry)) == provider::after_entries(ls),
{
    let n = entry_in_place(ls, entry);
    provider::lemma_providers_at(ls);
    let p = provider::providers_at(ls);
    let before = provider::before_entries(ls);
    let others = provider::other_entries(ls);
    let after = provider::after_entries(ls);
    assert forall|i: int| 0 <= i < p implies !provider::is_providers_line(#[trigger] n[i]) by {
        assert(n[i] == ls[i]);
    }
    assert(n[p] == ls[p]);
    provider::lemma_providers_at_unique(n, p);
    assert(n.take(p + 1) == before);
    let rest = ls.skip(p + 1);
    provider::lemma_run_len(rest);
    let r = provider::run_len(rest);
    let region = rest.take(r);
    assert forall|i: int| 0 <= i < region.len() implies !provider::stops(#[trigger] region[i]) by {
        assert(region[i] == rest[i]);
    }
    lemma_kept_all(region, None, |l: Seq<char>| !provider::stops(l));
    let mine = n.skip(p + 1);
    assert(mine == entry + others + after);
    let len = (entry.len() + others.len()) as int;
    assert forall|i: int| 0 <= i < len implies !provider::stops(#[trigger] mine[i]) by {
        if i < entry.len() {
            assert(mine[i] == entry[i]);
            lemma_space_line(entry[i]);
        } else {
            assert(mine[i] == others[i - entry.len()]);
        }
    }
    if len < mine.len() {
        assert(mine[len] == after[0]);
        assert(after[0] == rest[r]);
    }
    provider::lemma_run_len_unique(mine, len);
    assert(mine.take(len) == entry + others);
    assert(mine.skip(len) == after);
    lemma_kept_entry(entry, region);
}

/// The lines of the block that holds the gateway's entry and no other.
pub open spec fn section_lines(entry: Seq<Seq<char>>) -> Seq<Seq<char>> {
    seq![
        provider::line_text("llm-pi-ai:"@, ""@),
        provider::line_text("  providers:"@, ""@),
    ] + entry
}

pub proof fn lemma_section_lines(entry: Seq<Seq<char>>)
    requires
        entry_lines(entry),
    ensures
        lines::ended_lines(section_lines(entry)),
        blocks::key_of(section_lines(entry)[0]) == Some(provider::PROVIDERS_BLOCK@),
        forall|i: int|
            1 <= i < section_lines(entry).len() ==> blocks::key_of(
                #[trigger] section_lines(entry)[i],
            ) is None,
        provider::providers_at(section_lines(entry)) == 1,
        provider::before_entries(section_lines(entry)) == section_lines(entry).take(2),
        provider::other_entries(section_lines(entry)).len() == 0,
        provider::after_entries(section_lines(entry)).len() == 0,
{
    let all = section_lines(entry);
    reveal_strlit("");
    reveal_strlit("llm-pi-ai:");
    reveal_strlit("  providers:");
    reveal_strlit("llm-pi-ai");
    assert(provider::PROVIDERS_BLOCK@.len() == 9);
    lemma_line_text("llm-pi-ai:"@, ""@);
    lemma_line_text("  providers:"@, ""@);
    text::lemma_cut_unique(all[0], ':', 9);
    assert(all[0].take(9) =~= "llm-pi-ai"@);
    assert forall|i: int| 0 <= i < all.len() implies lines::one_line(#[trigger] all[i])
        && lines::ended(all[i]) && (i >= 1 ==> all[i][0] == ' ') by {
        if i >= 2 {
            assert(all[i] == entry[i - 2]);
        }
    }
    assert forall|i: int| 1 <= i < all.len() implies blocks::key_of(#[trigger] all[i]) is None by {
        lemma_space_line(all[i]);
    }
    text::lemma_trimmed_end_unique(all[0], 10);
    assert(all[0].take(10)[0] == 'l');
    assert("  providers:"@[0] == ' ');
    assert(!provider::is_providers_line(all[0]));
    text::lemma_trimmed_end_unique(all[1], 12);
    assert(all[1].take(12) =~= "  providers:"@);
    provider::lemma_providers_at_unique(all, 1);
    let rest = all.skip(2);
    assert(rest == entry);
    assert forall|i: int| 0 <= i < rest.len() implies !provider::stops(#[trigger] rest[i]) by {
        lemma_space_line(rest[i]);
    }
    provider::lemma_run_len_unique(rest, rest.len() as int);
    assert(rest.take(rest.len() as int) == rest);
    let none = Seq::<Seq<char>>::empty();
    assert(provider::kept(none, None) == none);
    lemma_kept_entry(entry, none);
    assert(entry + none == entry);
}

/// The lines of a block into which the gateway's entry is written.
pub open spec fn upserted_lines(ls: Seq<Seq<char>>, entry: Seq<Seq<char>>) -> Seq<Seq<char>> {
    if provider::providers_at(ls) < ls.len() {
        entry_in_place(ls, entry)
    } else {
        section_lines(entry)
    }
}

/// `block` is a providers block.
pub open spec fn providers_block(block: Seq<char>) -> bool {
    blocks::keyed(provider::PROVIDERS_BLOCK@, block) && lines::ended(block)
}

pub proof fn lemma_part_ended(ls: Seq<Seq<char>>)
    requires
        lines::ended_lines(ls),
    ensures
        lines::ended_lines(provider::before_entries(ls)) || provider::providers_at(ls) >= ls.len(),
        lines::ended_lines(provider::other_entries(ls)) || provider::providers_at(ls) >= ls.len(),
        lines::ended_lines(provider::after_entries(ls)) || provider::providers_at(ls) >= ls.len(),
{
    provider::lemma_providers_at(ls);
    let p = provider::providers_at(ls);
    if p < ls.len() {
        let before = provider::before_entries(ls);
        assert forall|i: int| 0 <= i < before.len() implies lines::one_line(#[trigger] before[i])
            && lines::ended(before[i]) by {
            assert(before[i] == ls[i]);
        }
        let rest = ls.skip(p + 1);
        provider::lemma_run_len(rest);
        let r = provider::run_len(rest);
        let region = rest.take(r);
        assert forall|i: int| 0 <= i < region.len() implies lines::one_line(#[trigger] region[i])
            && lines::ended(region[i]) by {
            assert(region[i] == ls[p + 1 + i]);
        }
        lemma_kept_all(region, None, |l: Seq<char>| lines::one_line(l) && lines::ended(l));
        let after = provider::after_entries(ls);
        assert forall|i: int| 0 <= i < after.len() implies lines::one_line(#[trigger] after[i])
            && lines::ended(after[i]) by {
            assert(after[i] == ls[p + 1 + r + i]);
        }
    }
}

pub proof fn lemma_ended_lines_add(a: Seq<Seq<char>>, b: Seq<Seq<char>>)
    requires
        lines::ended_lines(a),
        lines::ended_lines(b),
    ensures
        lines::ended_lines(a + b),
{
    let all = a + b;
    assert forall|i: int| 0 <= i < all.len() implies lines::one_line(#[trigger] all[i])
        && lines::ended(all[i]) by {
        if i < a.len() {
            assert(all[i] == a[i]);
        } else {
            assert(all[i] == b[i - a.len()]);
        }
    }
}

/// The lines of a providers block with `entry` written into it, and what they are.
proof fn lemma_upserted_lines(ls: Seq<Seq<char>>, entry: Seq<Seq<char>>)
    requires
        lines::ended_lines(ls),
        ls.len() > 0,
        blocks::key_of(ls[0]) == Some(provider::PROVIDERS_BLOCK@),
        forall|i: int| 1 <= i < ls.len() ==> blocks::key_of(#[trigger] ls[i]) is None,
        entry_lines(entry),
    ensures
        lines::ended_lines(upserted_lines(ls, entry)),
        blocks::key_of(upserted_lines(ls, entry)[0]) == Some(provider::PROVIDERS_BLOCK@),
        forall|i: int|
            1 <= i < upserted_lines(ls, entry).len() ==> blocks::key_of(
                #[trigger] upserted_lines(ls, entry)[i],
            ) is None,
{
    let n = upserted_lines(ls, entry);
    if provider::providers_at(ls) < ls.len() {
        provider::lemma_providers_at(ls);
        lemma_part_ended(ls);
        let p = provider::providers_at(ls);
        let before = provider::before_entries(ls);
        let others = provider::other_entries(ls);
        let after = provider::after_entries(ls);
        lemma_ended_lines_add(before, entry);
        lemma_ended_lines_add(before + entry, others);
        lemma_ended_lines_add(before + entry + others, after);
        assert(p >= 1) by {
            if p == 0 {
                reveal_strlit("  providers:");
                text::lemma_trimmed_end(ls[0]);
                assert(ls[0][0] == text::trimmed_end(ls[0])[0]);
                lemma_space_line(ls[0]);
            }
        }
        let rest = ls.skip(p + 1);
        provider::lemma_run_len(rest);
        let r = provider::run_len(rest);
        let region = rest.take(r);
        assert forall|i: int| 0 <= i < region.len() implies blocks::key_of(
            #[trigger] region[i],
        ) is None by {
            assert(region[i] == ls[p + 1 + i]);
        }
        lemma_kept_all(region, None, |l: Seq<char>| blocks::key_of(l) is None);
        assert forall|i: int| 1 <= i < n.len() implies blocks::key_of(#[trigger] n[i]) is None by {
            if i < before.len() {
                assert(n[i] == ls[i]);
            } else if i < before.len() + entry.len() {
                assert(n[i] == entry[i - before.len()]);
                lemma_space_line(n[i]);
            } else if i < before.len() + entry.len() + others.len() {
                assert(n[i] == others[i - before.len() - entry.len()]);
            } else {
                let j = i - before.len() - entry.len() - others.len();
                assert(n[i] == after[j]);
                assert(n[i] == ls[p + 1 + r + j]);
            }
        }
        assert(n[0] == ls[0]);
    } else {
        lemma_section_lines(entry);
    }
}

/// A providers block stays one when the gateway's entry is written into it.
pub proof fn lemma_upserted_block(
    block: Seq<char>,
    proxy: Seq<char>,
    models: Seq<(Seq<char>, Seq<char>)>,
)
    requires
        providers_block(block),
        no_nl(proxy),
        plain_models(models),
    ensures
        providers_block(provider::upserted_block(block, proxy, models)),
        lines::lines_of(provider::upserted_block(block, proxy, models)) == upserted_lines(
            lines::lines_of(block),
            provider::provider_lines(proxy, models),
        ),
{
    let ls = lines::lines_of(block);
    let entry = provider::provider_lines(proxy, models);
    lines::lemma_lines_of(block);
    lemma_provider_lines(proxy, models);
    lemma_upserted_lines(ls, entry);
    let n = upserted_lines(ls, entry);
    lines::lemma_lines_of_joined(n);
    lines::lemma_joined_ended(n);
    if provider::providers_at(ls) < ls.len() {
        let before = provider::before_entries(ls);
        let others = provider::other_entries(ls);
        let after = provider::after_entries(ls);
        lines::lemma_joined_add(before, entry);
        lines::lemma_joined_add(before + entry, others);
        lines::lemma_joined_add(before + entry + others, after);
    } else {
        let a = provider::line_text("llm-pi-ai:"@, ""@);
        let b = provider::line_text("  providers:"@, ""@);
        lines::lemma_joined_add(seq![a, b], entry);
        assert(seq![a, b].skip(1) == seq![b]);
        lines::lemma_joined_one(b);
    }
    assert(lines::joined(n) == provider::upserted_block(block, proxy, models));
}

/// Writing the entry twice into a block leaves what the second write alone leaves.
pub proof fn lemma_upserted_twice(
    block: Seq<char>,
    proxy1: Seq<char>,
    models1: Seq<(Seq<char>, Seq<char>)>,
    proxy2: Seq<char>,
    models2: Seq<(Seq<char>, Seq<char>)>,
)
    requires
        providers_block(block),
        no_nl(proxy1),
        plain_models(models1),
    ensures
        provider::upserted_block(
            provider::upserted_block(block, proxy1, models1),
            proxy2,
            models2,
        ) == provider::upserted_block(block, proxy2, models2),
        provider::removed_block(provider::upserted_block(block, proxy1, models1))
            == provider::removed_block(block),
{
    lemma_upserted_block(block, proxy1, models1);
    lemma_provider_lines(proxy1, models1);
    let ls = lines::lines_of(block);
    let entry = provider::provider_lines(proxy1, models1);
    if provider::providers_at(ls) < ls.len() {
        lemma_entry_in_place(ls, entry);
    } else {
        lemma_section_lines(entry);
        let a = provider::line_text("llm-pi-ai:"@, ""@);
        let b = provider::line_text("  providers:"@, ""@);
        let n = section_lines(entry);
        assert(n.take(2) == seq![a, b]);
        assert(seq![a, b].skip(1) == seq![b]);
        lines::lemma_joined_one(b);
        assert(lines::joined(n.take(2)) == a + b);
        assert(lines::joined(provider::other_entries(n)).len() == 0);
        assert(lines::joined(provider::after_entries(n)).len() == 0);
        assert(provider::upserted_block(lines::joined(n), proxy2, models2)
            == provider::section_text(proxy2, models2)) by {
            lines::lemma_lines_of_joined(n);
        }
        lines::lemma_lines_of(provider::upserted_block(block, proxy1, models1));
    }
}

pub open spec fn last_owner(ls: Seq<Seq<char>>, owner: Option<Seq<char>>) -> Option<Seq<char>>
    decreases ls.len(),
{
    if ls.len() == 0 {
        owner
    } else {
        last_owner(ls.skip(1), provider::owner_of(ls[0], owner))
    }
}

pub proof fn lemma_kept_push(ls: Seq<Seq<char>>, l: Seq<char>, owner: Option<Seq<char>>)
    ensures
        provider::kept(ls.push(l), owner) == (if provider::other_entry(
            provider::owner_of(l, last_owner(ls, owner)),
        ) {
            provider::kept(ls, owner).push(l)
        } else {
            provider::kept(ls, owner)
        }),
    decreases ls.len(),
{
    let all = ls.push(l);
    if ls.len() == 0 {
        assert(all.skip(1) == ls);
        assert(provider::kept(ls, provider::owner_of(l, owner)) == ls);
        assert(seq![l] + ls == ls.push(l));
    } else {
        let o = provider::owner_of(ls[0], owner);
        lemma_kept_push(ls.skip(1), l, o);
        assert(all.skip(1) == ls.skip(1).push(l));
        assert(all[0] == ls[0]);
        let k = provider::kept(ls.skip(1), o);
        assert(seq![ls[0]] + k.push(l) == (seq![ls[0]] + k).push(l));
    }
}

/// A newline at the end of a line changes nothing about what the line is.
proof fn lemma_line_nl(l: Seq<char>)
    requires
        l.len() > 0,
    ensures
        provider::is_providers_line(l.push('\n')) == provider::is_providers_line(l),
        provider::stops(l.push('\n')) == provider::stops(l),
        blocks::child_key(l.push('\n')) == blocks::child_key(l),
{
    assert(l.push('\n') == l + seq!['\n']);
    text::lemma_trimmed_white(l, seq!['\n']);
    blocks::lemma_key_push(l, '\n');
    let m = l.push('\n');
    assert(m.drop_last() == l);
    text::lemma_blank_trimmed(l);
    text::lemma_blank_trimmed(m);
}

pub proof fn lemma_provider_text_ended(proxy: Seq<char>, models: Seq<(Seq<char>, Seq<char>)>)
    ensures
        provider::provider_text(proxy, models).len() > 0,
        lines::ended(provider::provider_text(proxy, models)),
{
    let all = provider::provider_lines(proxy, models);
    let tail = provider::model_lines(models);
    assert(all.len() == 8 + tail.len());
    if models.len() == 0 {
        assert(all.last() == provider::line_text("      models:"@, ""@));
    } else {
        assert(all.last() == tail.last());
        assert(tail.last() == provider::line_text("          name: "@, models.last().1));
    }
    assert(all == all.drop_last().push(all.last()));
    lines::lemma_joined_push(all.drop_last(), all.last());
}

/// A newline at the end of a block goes behind what is written into it. This leaves out
/// the block whose last line is a providers line without a newline.
proof fn lemma_block_nl(
    t: Seq<char>,
    proxy: Seq<char>,
    models: Seq<(Seq<char>, Seq<char>)>,
)
    requires
        !lines::ended(t),
    ensures
        provider::providers_at(lines::lines_of(t)) != lines::lines_of(t).len() - 1
            ==> provider::upserted_block(t.push('\n'), proxy, models) == lines::with_nl(
            provider::upserted_block(t, proxy, models),
        ) && provider::upserted_block(t, proxy, models).len() > 0,
        lines::with_nl(provider::removed_block(t.push('\n'))) == lines::with_nl(
            provider::removed_block(t),
        ),
{
    let ls = lines::lines_of(t);
    let ms = lines::lines_of(t.push('\n'));
    lines::lemma_lines_of(t);
    lines::lemma_lines_push(t, '\n');
    let init = ls.drop_last();
    let l = ls[ls.len() - 1];
    let m = l.push('\n');
    assert(ls == init.push(l));
    assert(ms == init.push(m));
    assert(lines::one_line(l));
    lemma_line_nl(l);
    provider::lemma_providers_at(ls);
    let p = provider::providers_at(ls);
    assert forall|i: int| 0 <= i < p implies !provider::is_providers_line(#[trigger] ms[i]) by {
        assert(!provider::is_providers_line(ls[i]));
        if i < init.len() {
            assert(ms[i] == ls[i]);
        }
    }
    if p < ls.len() {
        if p < init.len() {
            assert(ms[p] == ls[p]);
        }
        assert(provider::is_providers_line(ms[p]));
    }
    provider::lemma_providers_at_unique(ms, p);
    let text = provider::provider_text(proxy, models);
    lemma_provider_text_ended(proxy, models);
    if p >= ls.len() {
        let a = provider::line_text("llm-pi-ai:"@, ""@) + provider::line_text("  providers:"@, ""@);
        assert((a + text).last() == text.last());
    } else if p == ls.len() - 1 {
        assert(ls.skip(p + 1).len() == 0);
        assert(ms.skip(p + 1).len() == 0);
        assert(provider::other_entries(ls).len() == 0);
        assert(provider::other_entries(ms).len() == 0);
    } else {
        let before = provider::before_entries(ls);
        assert(provider::before_entries(ms) == before);
        let a = init.skip(p + 1);
        let rest = ls.skip(p + 1);
        assert(rest == a.push(l));
        assert(ms.skip(p + 1) == a.push(m));
        provider::lemma_run_len(rest);
        let r = provider::run_len(rest);
        let rest2 = a.push(m);
        assert forall|i: int| 0 <= i < r implies !provider::stops(#[trigger] rest2[i]) by {
            assert(!provider::stops(rest[i]));
            if i < a.len() {
                assert(rest2[i] == rest[i]);
            }
        }
        if r < rest.len() {
            if r < a.len() {
                assert(rest2[r] == rest[r]);
            }
            assert(provider::stops(rest2[r]));
        }
        provider::lemma_run_len_unique(rest2, r);
        assert forall|i: int| 0 <= i < a.len() implies lines::one_line(#[trigger] a[i])
            && lines::ended(a[i]) by {
            assert(a[i] == ls[p + 1 + i]);
        }
        assert forall|i: int| 0 <= i < before.len() implies lines::one_line(#[trigger] before[i])
            && lines::ended(before[i]) by {
            assert(before[i] == ls[i]);
        }
        lines::lemma_joined_ended(before);
        let x = lines::joined(before);
        if r == rest.len() {
            assert(rest.take(r) == rest);
            assert(rest2.take(r) == rest2);
            assert(rest.skip(r).len() == 0);
            assert(rest2.skip(r).len() == 0);
            lemma_kept_push(a, l, None);
            lemma_kept_push(a, m, None);
            let k = provider::kept(a, None);
            lemma_kept_all(a, None, |l: Seq<char>| lines::one_line(l) && lines::ended(l));
            assert(lines::ended_lines(k));
            lines::lemma_joined_ended(k);
            let none = Seq::<char>::empty();
            if provider::other_entry(provider::owner_of(l, last_owner(a, None))) {
                lines::lemma_joined_push(k, l);
                lines::lemma_joined_push(k, m);
                let y = lines::joined(k);
                assert(x + text + (y + m) + none == (x + text + (y + l) + none).push('\n'));
                assert((x + text + (y + l) + none).last() == l.last());
                assert(x + (y + m) + none == (x + (y + l) + none).push('\n'));
                assert((x + (y + l) + none).last() == l.last());
            } else {
                let y = lines::joined(k);
                if y.len() > 0 {
                    assert((x + text + y + none).last() == y.last());
                    assert((x + y + none).last() == y.last());
                } else {
                    assert(x + text + y + none == x + text);
                    assert(x + y + none == x);
                }
            }
        } else {
            assert(rest.take(r) == rest2.take(r));
            let b = a.skip(r);
            assert(rest.skip(r) == b.push(l));
            assert(rest2.skip(r) == b.push(m));
            lines::lemma_joined_push(b, l);
            lines::lemma_joined_push(b, m);
            let y = lines::joined(provider::other_entries(ls));
            let z = lines::joined(b);
            assert(x + text + y + (z + m) == (x + text + y + (z + l)).push('\n'));
            assert((x + text + y + (z + l)).last() == l.last());
            assert(x + y + (z + m) == (x + y + (z + l)).push('\n'));
            assert((x + y + (z + l)).last() == l.last());
        }
    }
}

/// The last line of `settings` is a providers line without a newline: the entry would
/// be written onto that line.
pub open spec fn hanging(settings: Seq<char>) -> bool {
    let bs = blocks::blocks_of(settings);
    let ls = lines::lines_of(bs.last().1);
    &&& !lines::ended(settings)
    &&& bs.len() > 0
    &&& bs.last().0 == provider::PROVIDERS_BLOCK@
    &&& provider::providers_at(ls) == ls.len() - 1
}

/// A newline at the end of the settings makes no difference to writing or removing.
pub proof fn lemma_settings_nl(
    s: Seq<char>,
    proxy: Seq<char>,
    models: Seq<(Seq<char>, Seq<char>)>,
)
    ensures
        !hanging(s) ==> provider::with_provider(lines::with_nl(s), proxy, models)
            == provider::with_provider(s, proxy, models),
        provider::without_provider(lines::with_nl(s)) == provider::without_provider(s),
{
    if !lines::ended(s) {
        let nl = seq!['\n'];
        assert(s.push('\n') == s + nl);
        blocks::lemma_blocks_white(s, nl);
        blocks::lemma_blocks_of(s);
        blocks::lemma_head(s);
        text::lemma_trimmed_white(s, nl);
        let bs = blocks::blocks_of(s);
        let cs = blocks::blocks_of(s + nl);
        if bs.len() > 0 {
            let init = bs.drop_last();
            let (k, t) = bs[bs.len() - 1];
            assert(bs == init + seq![(k, t)]);
            assert(t + nl == t.push('\n'));
            assert(cs == init + seq![(k, t.push('\n'))]);
            blocks::lemma_render_add(init, seq![(k, t)]);
            blocks::lemma_render_one((k, t));
            assert(t.len() > 0);
            let whole = blocks::without_blank_head(s);
            assert(whole.last() == t.last());
            assert(whole.len() > 0 && whole.last() == s.last());
            assert(!lines::ended(t));
            lemma_block_nl(t, proxy, models);
            assert(blocks::has_block(cs, provider::PROVIDERS_BLOCK@) == blocks::has_block(
                bs,
                provider::PROVIDERS_BLOCK@,
            )) by {
                let key = provider::PROVIDERS_BLOCK@;
                assert forall|i: int| 0 <= i < bs.len() implies (#[trigger] bs[i]).0 == cs[i].0 by {
                }
                if blocks::has_block(bs, key) {
                    let i = choose|i: int| 0 <= i < bs.len() && (#[trigger] bs[i]).0 == key;
                    assert(cs[i].0 == key);
                }
                if blocks::has_block(cs, key) {
                    let i = choose|i: int| 0 <= i < cs.len() && (#[trigger] cs[i]).0 == key;
                    assert(bs[i].0 == key);
                }
            }
            let f = provider::upserting(proxy, models);
            let g = provider::removing();
            lemma_mapped_last(init, k, t, f);
            lemma_mapped_last(init, k, t.push('\n'), f);
            lemma_mapped_last(init, k, t, g);
            lemma_mapped_last(init, k, t.push('\n'), g);
            assert(g(k, t.push('\n')) == g(k, t));
            if !hanging(s) {
                let x = blocks::render(blocks::mapped(init, f));
                let a = f(k, t);
                assert(f(k, t.push('\n')) == lines::with_nl(a));
                assert(a.len() > 0);
                assert((x + a).last() == a.last());
                assert(x + a.push('\n') == (x + a).push('\n'));
                assert((x + lines::with_nl(a)).last() == '\n');
            }
        }
    }
}

pub proof fn lemma_mapped_last(
    init: Seq<(Seq<char>, Seq<char>)>,
    k: Seq<char>,
    t: Seq<char>,
    f: spec_fn(Seq<char>, Seq<char>) -> Seq<char>,
)
    ensures
        blocks::render(blocks::mapped(init + seq![(k, t)], f)) == blocks::render(
            blocks::mapped(init, f),
        ) + f(k, t),
{
    let all = init + seq![(k, t)];
    blocks::lemma_mapped_step(all, f, init.len() as int);
    assert(all.take(init.len() as int + 1) == all);
    assert(all.take(init.len() as int) == init);
}

/// Lines with no white chars at the end of the last one but its newline.
pub open spec fn last_tidied(ls: Seq<Seq<char>>) -> Seq<Seq<char>> {
    ls.drop_last().push(blocks::tidied(ls.last()))
}

pub proof fn lemma_section_text(proxy: Seq<char>, models: Seq<(Seq<char>, Seq<char>)>)
    requires
        no_nl(proxy),
        plain_models(models),
    ensures
        providers_block(provider::section_text(proxy, models)),
        provider::section_text(proxy, models) == lines::joined(
            section_lines(provider::provider_lines(proxy, models)),
        ),
        provider::PROVIDERS_BLOCK@.len() > 0,
{
    let entry = provider::provider_lines(proxy, models);
    lemma_provider_lines(proxy, models);
    lemma_section_lines(entry);
    let n = section_lines(entry);
    lines::lemma_lines_of_joined(n);
    lines::lemma_joined_ended(n);
    let a = provider::line_text("llm-pi-ai:"@, ""@);
    let b = provider::line_text("  providers:"@, ""@);
    lines::lemma_joined_add(seq![a, b], entry);
    assert(seq![a, b].skip(1) == seq![b]);
    lines::lemma_joined_one(b);
    reveal_strlit("llm-pi-ai");
    assert(provider::PROVIDERS_BLOCK@.len() == 9);
}

proof fn lemma_last_line(proxy: Seq<char>, models: Seq<(Seq<char>, Seq<char>)>)
    ensures
        deep(provider::provider_lines(proxy, models).last()),
        !text::blank(provider::provider_lines(proxy, models).last()),
        provider::provider_lines(proxy, models).len() > 1,
{
    let all = provider::provider_lines(proxy, models);
    let tail = provider::model_lines(models);
    if models.len() == 0 {
        reveal_strlit("      models:");
        reveal_strlit("");
        assert(all.last() == provider::line_text("      models:"@, ""@));
        assert(all.last()[6] == 'm');
    } else {
        reveal_strlit("          name: ");
        assert(all.last() == tail.last());
        assert(tail.last() == provider::line_text("          name: "@, models.last().1));
        assert(all.last()[10] == 'n');
    }
}

/// The tidied block with the gateway's entry alone: a later write replaces the entry,
/// removal leaves nothing.
pub proof fn lemma_tidied_section(
    proxy1: Seq<char>,
    models1: Seq<(Seq<char>, Seq<char>)>,
    proxy2: Seq<char>,
    models2: Seq<(Seq<char>, Seq<char>)>,
)
    requires
        no_nl(proxy1),
        plain_models(models1),
    ensures
        provider::upserted_block(
            blocks::tidied(provider::section_text(proxy1, models1)),
            proxy2,
            models2,
        ) == provider::section_text(proxy2, models2),
        provider::removed_block(blocks::tidied(provider::section_text(proxy1, models1))).len()
            == 0,
{
    let entry = provider::provider_lines(proxy1, models1);
    let now = last_tidied(entry);
    lemma_provider_lines(proxy1, models1);
    lemma_last_line(proxy1, models1);
    lemma_section_text(proxy1, models1);
    let l = entry[entry.len() - 1];
    let u = text::trimmed_end(l);
    let m = blocks::tidied(l);
    text::lemma_blank_trimmed(l);
    text::lemma_trimmed_end(l);
    assert(lines::one_line(l));
    assert(u.last() == l[u.len() - 1]);
    assert(u.len() > 5) by {
        if u.len() <= 5 {
            assert(l[u.len() - 1] == ' ');
        }
    }
    assert(deep(m)) by {
        assert(m[0] == l[0] && m[1] == l[1] && m[2] == l[2] && m[3] == l[3] && m[4] == l[4]);
    }
    lemma_deep(m);
    assert forall|i: int| 0 <= i < m.len() - 1 implies m[i] != '\n' by {
        assert(m[i] == l[i]);
        if i == l.len() - 1 {
            assert(!text::white(l[i]));
        }
    }
    assert forall|i: int| 0 <= i < now.len() implies lines::one_line(#[trigger] now[i])
        && lines::ended(now[i]) && now[i][0] == ' ' && (i >= 1 ==> blocks::child_key(
        now[i],
    ) is None) by {
        if i < now.len() - 1 {
            assert(now[i] == entry[i]);
        }
    }
    assert(entry_lines(now)) by {
        assert(now[0] == entry[0]);
    }
    let n = section_lines(now);
    lemma_section_lines(now);
    let init = section_lines(entry).drop_last();
    assert(section_lines(entry) == init.push(l));
    assert(n == init.push(m));
    lines::lemma_joined_push(init, l);
    lines::lemma_joined_push(init, m);
    let x = lines::joined(init);
    let all = x + l;
    let k = x.len() + u.len();
    assert forall|i: int| k <= i < all.len() implies text::white(#[trigger] all[i]) by {
        assert(all[i] == l[i - x.len()]);
    }
    assert(all[k - 1] == u.last());
    text::lemma_trimmed_end_unique(all, k as int);
    assert(all.take(k as int) == x + u);
    assert((x + u).push('\n') == x + m);
    assert(blocks::tidied(provider::section_text(proxy1, models1)) == lines::joined(n));
    lines::lemma_lines_of_joined(n);
    let a = provider::line_text("llm-pi-ai:"@, ""@);
    let b = provider::line_text("  providers:"@, ""@);
    assert(n.take(2) == seq![a, b]);
    assert(seq![a, b].skip(1) == seq![b]);
    lines::lemma_joined_one(b);
    assert(lines::joined(n.take(2)) == a + b);
    assert(lines::joined(provider::other_entries(n)).len() == 0);
    assert(lines::joined(provider::after_entries(n)).len() == 0);
}

pub proof fn lemma_upserting_blocks(
    s: Seq<char>,
    proxy: Seq<char>,
    models: Seq<(Seq<char>, Seq<char>)>,
)
    requires
        lines::ended(s),
        no_nl(proxy),
        plain_models(models),
    ensures
        blocks::good_blocks(blocks::mapped(blocks::blocks_of(s), provider::upserting(proxy, models))),
        blocks::blocks_of(
            blocks::render(
                blocks::mapped(blocks::blocks_of(s), provider::upserting(proxy, models)),
            ),
        ) == blocks::mapped(blocks::blocks_of(s), provider::upserting(proxy, models)),
        lines::ended(
            blocks::render(
                blocks::mapped(blocks::blocks_of(s), provider::upserting(proxy, models)),
            ),
        ),
{
    let bs = blocks::blocks_of(s);
    let f = provider::upserting(proxy, models);
    blocks::lemma_blocks_of(s);
    reveal_strlit("llm-pi-ai");
    assert(provider::PROVIDERS_BLOCK@.len() == 9);
    assert forall|i: int| 0 <= i < bs.len() implies lines::ended(f((#[trigger] bs[i]).0, bs[i].1))
        && (blocks::keyed(bs[i].0, bs[i].1) ==> blocks::keyed(bs[i].0, f(bs[i].0, bs[i].1))) && (
    blocks::headed(bs[i].0, bs[i].1) ==> blocks::headed(bs[i].0, f(bs[i].0, bs[i].1))) by {
        if bs[i].0 == provider::PROVIDERS_BLOCK@ {
            assert(providers_block(bs[i].1));
            lemma_upserted_block(bs[i].1, proxy, models);
        }
    }
    blocks::lemma_mapped_blocks(bs, f);
}

/// The settings have a providers block.
pub open spec fn has_providers(settings: Seq<char>) -> bool {
    blocks::has_block(blocks::blocks_of(settings), provider::PROVIDERS_BLOCK@)
}

pub proof fn lemma_has_providers_nl(s: Seq<char>)
    ensures
        has_providers(lines::with_nl(s)) == has_providers(s),
{
    if !lines::ended(s) {
        blocks::lemma_blocks_white(s, seq!['\n']);
        assert(s.push('\n') == s + seq!['\n']);
        blocks::lemma_grown_keys(blocks::blocks_of(s), seq!['\n'], provider::PROVIDERS_BLOCK@);
    }
}

/// Writing the entry into settings with a providers block rewrites the providers blocks
/// one by one and leaves every other block, and the order of the blocks, as it was.
pub proof fn law_write_keeps_blocks(
    settings: Seq<char>,
    proxy: Seq<char>,
    models: Seq<(Seq<char>, Seq<char>)>,
)
    requires
        has_providers(settings),
        !hanging(settings),
        no_nl(proxy),
        plain_models(models),
    ensures
        blocks::blocks_of(provider::with_provider(settings, proxy, models)) == blocks::mapped(
            blocks::blocks_of(lines::with_nl(settings)),
            provider::upserting(proxy, models),
        ),
        lines::ended(provider::with_provider(settings, proxy, models)),
{
    let s = lines::with_nl(settings);
    lemma_settings_nl(settings, proxy, models);
    lemma_has_providers_nl(settings);
    lemma_upserting_blocks(s, proxy, models);
}

/// The name of the last model ends in no white char.
pub open spec fn tidy_models(models: Seq<(Seq<char>, Seq<char>)>) -> bool {
    models.len() > 0 ==> models.last().1.len() > 0 && !text::white(models.last().1.last())
}

pub proof fn lemma_tidy_section(proxy: Seq<char>, models: Seq<(Seq<char>, Seq<char>)>)
    requires
        tidy_models(models),
    ensures
        blocks::tidied(provider::section_text(proxy, models)) == provider::section_text(
            proxy,
            models,
        ),
{
    let all = provider::provider_lines(proxy, models);
    let tail = provider::model_lines(models);
    let l = all.last();
    assert(all == all.drop_last().push(l));
    lines::lemma_joined_push(all.drop_last(), l);
    if models.len() == 0 {
        reveal_strlit("      models:");
        reveal_strlit("");
        assert(l == provider::line_text("      models:"@, ""@));
        assert(l[l.len() - 2] == ':');
    } else {
        assert(l == tail.last());
        assert(tail.last() == provider::line_text("          name: "@, models.last().1));
        assert(l[l.len() - 2] == models.last().1.last());
    }
    assert(l.len() >= 2 && !text::white(l[l.len() - 2]) && l.last() == '\n');
    let s = provider::section_text(proxy, models);
    let n = s.len() as int;
    assert(s[n - 2] == l[l.len() - 2]);
    assert(s[n - 1] == l[l.len() - 1]);
    text::lemma_trimmed_end_unique(s, n - 1);
    assert(s.take(n - 1).push('\n') == s);
}

/// Blank lines stand before the first block of the settings.
pub open spec fn blank_head(settings: Seq<char>) -> bool {
    let head = blocks::head_of(settings);
    head.len() > 0 && text::blank(head) && !text::blank(settings)
}

/// A later write of the entry replaces an earlier one: what is left is what the later
/// write alone would leave. Without a providers block the first write keeps blank lines
/// at the start and tidies the end of what it appends, which a second one does not.
pub proof fn law_later_write_wins(
    settings: Seq<char>,
    proxy1: Seq<char>,
    models1: Seq<(Seq<char>, Seq<char>)>,
    proxy2: Seq<char>,
    models2: Seq<(Seq<char>, Seq<char>)>,
)
    requires
        !hanging(settings),
        no_nl(proxy1),
        plain_models(models1),
        has_providers(settings) || (tidy_models(models2) && !blank_head(settings)),
    ensures
        provider::with_provider(
            provider::with_provider(settings, proxy1, models1),
            proxy2,
            models2,
        ) == provider::with_provider(settings, proxy2, models2),
{
    let f1 = provider::upserting(proxy1, models1);
    let f2 = provider::upserting(proxy2, models2);
    let key = provider::PROVIDERS_BLOCK@;
    let once = provider::with_provider(settings, proxy1, models1);
    if has_providers(settings) {
        let s = lines::with_nl(settings);
        let bs = blocks::blocks_of(s);
        lemma_settings_nl(settings, proxy1, models1);
        lemma_settings_nl(settings, proxy2, models2);
        lemma_has_providers_nl(settings);
        law_write_keeps_blocks(settings, proxy1, models1);
        blocks::lemma_blocks_of(s);
        reveal_strlit("llm-pi-ai");
        assert(provider::PROVIDERS_BLOCK@.len() == 9);
        let cs = blocks::mapped(bs, f1);
        let i = choose|i: int| 0 <= i < bs.len() && (#[trigger] bs[i]).0 == key;
        assert(cs[i].0 == key);
        assert forall|i: int| 0 <= i < bs.len() implies f2(
            (#[trigger] bs[i]).0,
            f1(bs[i].0, bs[i].1),
        ) == f2(bs[i].0, bs[i].1) by {
            if bs[i].0 == key {
                assert(providers_block(bs[i].1));
                lemma_upserted_twice(bs[i].1, proxy1, models1, proxy2, models2);
            }
        }
        assert(blocks::mapped(cs, f2) == blocks::mapped(bs, f2));
    } else {
        let k1 = provider::section_text(proxy1, models1);
        let k2 = provider::section_text(proxy2, models2);
        lemma_section_text(proxy1, models1);
        lemma_tidied_section(proxy1, models1, proxy2, models2);
        lemma_tidy_section(proxy2, models2);
        blocks::lemma_appended(settings, key, k1);
        let b = blocks::body_of(settings);
        let bs = blocks::blocks_of(b);
        let cs = bs.push((key, blocks::tidied(k1)));
        assert(cs[bs.len() as int].0 == key);
        assert(blocks::has_block(cs, key));
        lemma_others_stay(b, f2);
        assert(cs == bs + seq![(key, blocks::tidied(k1))]);
        lemma_mapped_last(bs, key, blocks::tidied(k1), f2);
        assert(blocks::without_blank_head(b) == b);
        assert(provider::with_provider(once, proxy2, models2) == lines::with_nl(b + k2));
        assert(k2 == blocks::tidied(k2));
        assert((b + k2).last() == '\n');
        assert(blocks::appended(settings, k2) == b + k2) by {
            let u = text::trimmed_end(k2);
            text::lemma_trimmed_end(k2);
            assert(u.len() + 1 == k2.len());
            let all = b + k2;
            let n = (b.len() + u.len()) as int;
            assert(u.len() > 0) by {
                lemma_section_nonblank(proxy2, models2);
                text::lemma_blank_trimmed(k2);
            }
            assert(all[n - 1] == u.last());
            assert forall|i: int| n <= i < all.len() implies text::white(#[trigger] all[i]) by {
                assert(all[i] == k2[i - b.len()]);
            }
            text::lemma_trimmed_end_unique(all, n);
            assert(all.take(n) == b + u);
            assert((b + u).push('\n') == all);
            if text::trimmed_end(settings).len() == 0 {
                assert(b + k2 == k2);
            }
        }
    }
}

proof fn lemma_section_nonblank(proxy: Seq<char>, models: Seq<(Seq<char>, Seq<char>)>)
    ensures
        !text::blank(provider::section_text(proxy, models)),
{
    reveal_strlit("llm-pi-ai:");
    let s = provider::section_text(proxy, models);
    assert(s[0] == 'l');
}

/// Blocks that end in newlines, none of them a providers block, come out as they are.
proof fn lemma_others_stay(s: Seq<char>, f: spec_fn(Seq<char>, Seq<char>) -> Seq<char>)
    requires
        lines::ended(s),
        !has_providers(s),
        forall|k: Seq<char>, t: Seq<char>|
            k != provider::PROVIDERS_BLOCK@ ==> #[trigger] f(k, t) == lines::with_nl(t),
    ensures
        blocks::render(blocks::mapped(blocks::blocks_of(s), f)) == blocks::without_blank_head(s),
{
    let bs = blocks::blocks_of(s);
    blocks::lemma_blocks_of(s);
    assert forall|i: int| 0 <= i < bs.len() implies f((#[trigger] bs[i]).0, bs[i].1) == bs[i].1 by {
        assert(bs[i].0 != provider::PROVIDERS_BLOCK@);
    }
    assert(blocks::mapped(bs, f) == bs);
}

/// Where the last line is a providers line without a newline, the entry is written onto
/// it; removing then takes the whole block, as it does before the write.
proof fn lemma_hanging_block(
    t: Seq<char>,
    proxy: Seq<char>,
    models: Seq<(Seq<char>, Seq<char>)>,
)
    requires
        blocks::keyed(provider::PROVIDERS_BLOCK@, t),
        !lines::ended(t),
        provider::providers_at(lines::lines_of(t)) == lines::lines_of(t).len() - 1,
        no_nl(proxy),
        plain_models(models),
    ensures
        providers_block(provider::upserted_block(t, proxy, models)),
        provider::removed_block(provider::upserted_block(t, proxy, models)).len() == 0,
        provider::removed_block(t).len() == 0,
{
    let ls = lines::lines_of(t);
    let entry = provider::provider_lines(proxy, models);
    lines::lemma_lines_of(t);
    lines::lemma_lines_push(t, '\n');
    lemma_provider_lines(proxy, models);
    provider::lemma_providers_at(ls);
    let p = provider::providers_at(ls);
    let init = ls.drop_last();
    let l = ls[p];
    let first = l + entry[0];
    let more = entry.skip(1);
    let n = init.push(first) + more;
    assert(ls == init.push(l));
    assert(lines::one_line(l));
    text::lemma_trimmed_end(l);
    reveal_strlit("  providers:");
    reveal_strlit("    ais-codex:");
    reveal_strlit("");
    assert(l[0] == text::trimmed_end(l)[0]);
    assert(p >= 1) by {
        if p == 0 {
            lemma_space_line(ls[0]);
        }
    }
    assert(l.len() >= 12);
    assert(entry[0] == provider::line_text("    ais-codex:"@, ""@));
    assert(entry[0].len() == 15 && entry[0][13] == ':' && entry[0][14] == '\n');
    assert(lines::one_line(entry[0]));
    assert(lines::one_line(first) && lines::ended(first)) by {
        assert forall|i: int| 0 <= i < first.len() - 1 implies first[i] != '\n' by {
            if i < l.len() {
                assert(first[i] == l[i]);
            } else {
                assert(first[i] == entry[0][i - l.len()]);
            }
        }
        assert(first.last() == '\n');
    }
    text::lemma_trimmed_end_unique(first, l.len() as int + 14);
    assert(!provider::is_providers_line(first));
    assert forall|i: int| 0 <= i < n.len() implies lines::one_line(#[trigger] n[i]) && lines::ended(
        n[i],
    ) && !provider::is_providers_line(n[i]) && (i >= 1 ==> blocks::key_of(n[i]) is None) by {
        if i < init.len() {
            assert(n[i] == ls[i]);
        } else if i == init.len() {
            assert(n[i] == first);
            lemma_space_line(first);
        } else {
            let e = entry[i - init.len()];
            assert(n[i] == e);
            assert(deep(e));
            lemma_space_line(e);
            text::lemma_trimmed_end(e);
            if provider::is_providers_line(e) {
                assert(text::trimmed_end(e)[2] == e[2]);
            }
        }
    }
    provider::lemma_providers_at_unique(n, n.len() as int);
    lines::lemma_lines_of_joined(n);
    lines::lemma_joined_ended(n);
    lines::lemma_joined_add(init.push(first), more);
    lines::lemma_joined_push(init, first);
    lines::lemma_joined_push(init, l);
    lines::lemma_joined_add(seq![entry[0]], more);
    assert(entry == seq![entry[0]] + more);
    lines::lemma_joined_one(entry[0]);
    let x = lines::joined(init);
    let y = lines::joined(more);
    assert(x + (l + entry[0]) + y == (x + l) + (entry[0] + y));
    assert(ls.take(p + 1) == ls);
    assert(ls.skip(p + 1).len() == 0);
    assert(provider::other_entries(ls).len() == 0);
    assert(provider::after_entries(ls).len() == 0);
    let none = Seq::<char>::empty();
    assert(t + provider::provider_text(proxy, models) + none + none == lines::joined(n));
    assert(n[0] == ls[0]);
}

pub proof fn lemma_remove_hanging(
    settings: Seq<char>,
    proxy: Seq<char>,
    models: Seq<(Seq<char>, Seq<char>)>,
)
    requires
        hanging(settings),
        no_nl(proxy),
        plain_models(models),
    ensures
        provider::without_provider(provider::with_provider(settings, proxy, models))
            == provider::without_provider(settings),
        blocks::blocks_of(provider::with_provider(settings, proxy, models)) == blocks::mapped(
            blocks::blocks_of(settings),
            provider::upserting(proxy, models),
        ),
        lines::ended(provider::with_provider(settings, proxy, models)),
{
    let f = provider::upserting(proxy, models);
    let g = provider::removing();
    let key = provider::PROVIDERS_BLOCK@;
    let bs = blocks::blocks_of(settings);
    let z = bs.len() - 1;
    blocks::lemma_blocks_of(settings);
    blocks::lemma_head(settings);
    reveal_strlit("llm-pi-ai");
    assert(key.len() == 9);
    let init = bs.drop_last();
    let last = bs[z];
    assert(bs == init + seq![last]);
    blocks::lemma_render_add(init, seq![last]);
    blocks::lemma_render_one(last);
    assert(blocks::keyed(last.0, last.1));
    assert(last.1.len() > 0) by {
        lines::lemma_lines_of(last.1);
    }
    let whole = blocks::without_blank_head(settings);
    assert(whole.last() == last.1.last());
    assert(whole.last() == settings.last());
    lemma_hanging_block(last.1, proxy, models);
    assert forall|i: int| 0 <= i < bs.len() implies lines::ended(f((#[trigger] bs[i]).0, bs[i].1))
        && (blocks::keyed(bs[i].0, bs[i].1) ==> blocks::keyed(bs[i].0, f(bs[i].0, bs[i].1))) && (
    blocks::headed(bs[i].0, bs[i].1) ==> blocks::headed(bs[i].0, f(bs[i].0, bs[i].1))) && g(
        bs[i].0,
        f(bs[i].0, bs[i].1),
    ) == g(bs[i].0, bs[i].1) by {
        if i < z {
            assert(lines::ended(bs[i].1));
            if bs[i].0 == key {
                assert(providers_block(bs[i].1));
                lemma_upserted_block(bs[i].1, proxy, models);
                lemma_upserted_twice(bs[i].1, proxy, models, proxy, models);
            }
        } else {
            let none = Seq::<char>::empty();
            assert(provider::removed_block(bs[i].1) == none);
            assert(provider::removed_block(f(key, bs[i].1)) == none);
        }
    }
    blocks::lemma_mapped_blocks(bs, f);
    let cs = blocks::mapped(bs, f);
    assert(cs[z].0 == key);
    assert(bs[z].0 == key);
    assert(blocks::has_block(bs, key));
    assert(blocks::has_block(cs, key));
    assert(blocks::mapped(cs, g) == blocks::mapped(bs, g));
}

/// Removing undoes a write. Settings with a providers block come out as they would
/// without the write; settings without one come out as they were, but for blank lines at
/// the start and white chars at the end.
pub proof fn law_remove_undoes_write(
    settings: Seq<char>,
    proxy: Seq<char>,
    models: Seq<(Seq<char>, Seq<char>)>,
)
    requires
        no_nl(proxy),
        plain_models(models),
    ensures
        provider::without_provider(provider::with_provider(settings, proxy, models)) == (
        if has_providers(settings) {
            provider::without_provider(settings)
        } else {
            blocks::tidied(blocks::without_blank_head(settings))
        }),
{
    let f = provider::upserting(proxy, models);
    let g = provider::removing();
    let key = provider::PROVIDERS_BLOCK@;
    if hanging(settings) {
        lemma_remove_hanging(settings, proxy, models);
        let bs = blocks::blocks_of(settings);
        assert(bs[bs.len() - 1].0 == key);
        assert(has_providers(settings));
    } else if has_providers(settings) {
        let s = lines::with_nl(settings);
        let bs = blocks::blocks_of(s);
        lemma_settings_nl(settings, proxy, models);
        lemma_has_providers_nl(settings);
        law_write_keeps_blocks(settings, proxy, models);
        blocks::lemma_blocks_of(s);
        reveal_strlit("llm-pi-ai");
        assert(provider::PROVIDERS_BLOCK@.len() == 9);
        let cs = blocks::mapped(bs, f);
        let i = choose|i: int| 0 <= i < bs.len() && (#[trigger] bs[i]).0 == key;
        assert(cs[i].0 == key);
        assert forall|i: int| 0 <= i < bs.len() implies g(
            (#[trigger] bs[i]).0,
            f(bs[i].0, bs[i].1),
        ) == g(bs[i].0, bs[i].1) by {
            if bs[i].0 == key {
                assert(providers_block(bs[i].1));
                lemma_upserted_twice(bs[i].1, proxy, models, proxy, models);
            }
        }
        assert(blocks::mapped(cs, g) == blocks::mapped(bs, g));
    } else {
        let k = provider::section_text(proxy, models);
        lemma_section_text(proxy, models);
        lemma_tidied_section(proxy, models, proxy, models);
        blocks::lemma_appended(settings, key, k);
        let b = blocks::body_of(settings);
        let bs = blocks::blocks_of(b);
        let cs = bs.push((key, blocks::tidied(k)));
        assert(cs[bs.len() as int].0 == key);
        assert(blocks::has_block(cs, key));
        lemma_others_stay(b, g);
        assert(cs == bs + seq![(key, blocks::tidied(k))]);
        lemma_mapped_last(bs, key, blocks::tidied(k), g);
        let w = blocks::without_blank_head(b);
        assert(w + lines::with_nl(provider::removed_block(blocks::tidied(k))) == w);
    }
}

} // verus!
