//! What is chosen: the default model among those offered, and dsh among its candidates.

use vstd::prelude::*;

use crate::gateway;
use crate::install;
use crate::install::PlaceView;
use crate::install::RunOutput;
use crate::lines;
use crate::outside_text;
use crate::text;
use crate::text_laws;

verus! {

/// The id is that of DeepSeek V4 Flash.
pub open spec fn is_flash(id: Seq<char>) -> bool {
    text_laws::ends_in(id, "deepseek-v4-flash"@)
}

/// The default model is the first one whose id ends with "deepseek-v4-flash". Where none
/// does it is the first one, and where no model is offered it is none.
pub proof fn law_default_is_flash(models: Seq<(Seq<char>, Seq<char>)>, i: int)
    ensures
        0 <= i < models.len() && is_flash(models[i].0) ==> is_flash(gateway::default_id(models))
            && exists|n: int|
            0 <= n <= i && gateway::default_id(models) == (#[trigger] models[n]).0 && forall|j: int|
                0 <= j < n ==> !is_flash((#[trigger] models[j]).0),
        models.len() > 0 && (forall|j: int|
            0 <= j < models.len() ==> !is_flash((#[trigger] models[j]).0))
            ==> gateway::default_id(models) == models[0].0,
        models.len() == 0 ==> gateway::default_id(models) == Seq::<char>::empty(),
{
    lemma_flash(models);
    let n = gateway::flash_at(models);
    if n < models.len() {
        assert(gateway::default_id(models) == models[n].0);
    }
}

proof fn lemma_flash(models: Seq<(Seq<char>, Seq<char>)>)
    ensures
        0 <= gateway::flash_at(models) <= models.len(),
        gateway::flash_at(models) < models.len() ==> is_flash(
            models[gateway::flash_at(models)].0,
        ),
        forall|j: int|
            0 <= j < gateway::flash_at(models) ==> !is_flash((#[trigger] models[j]).0),
    decreases models.len(),
{
    if models.len() > 0 {
        text_laws::law_found(models[0].0, "deepseek-v4-flash"@);
        let rest = models.skip(1);
        lemma_flash(rest);
        assert forall|j: int| 0 <= j < gateway::flash_at(models) implies !is_flash(
            (#[trigger] models[j]).0,
        ) by {
            if j > 0 {
                assert(models[j] == rest[j - 1]);
            }
        }
    }
}

/// So many letters `v`.
pub open spec fn vees(n: nat) -> Seq<char> {
    Seq::new(n, |i: int| 'v')
}

/// The text tells exactly the pinned version: behind letters `v`, with white space around
/// it.
pub open spec fn tells_pinned(s: Seq<char>) -> bool {
    exists|n: nat, a: Seq<char>, b: Seq<char>|
        s == #[trigger] (vees(n) + a + "0.1.1-rc.2"@ + b) && text::blank(a) && text::blank(b)
}

proof fn lemma_stripped(n: nat, rest: Seq<char>)
    requires
        rest.len() == 0 || rest[0] != 'v',
    ensures
        text::stripped_start(vees(n) + rest, 'v') == rest,
    decreases n,
{
    let s = vees(n) + rest;
    if n == 0 {
        assert(s == rest);
    } else {
        assert(s.skip(1) == vees((n - 1) as nat) + rest);
        lemma_stripped((n - 1) as nat, rest);
    }
}

proof fn lemma_unstripped(s: Seq<char>) -> (n: nat)
    ensures
        s == vees(n) + text::stripped_start(s, 'v'),
    decreases s.len(),
{
    if s.len() == 0 || s[0] != 'v' {
        assert(s == vees(0) + s);
        0
    } else {
        let m = lemma_unstripped(s.skip(1));
        assert(s == seq!['v'] + s.skip(1));
        assert(s == vees(m + 1) + text::stripped_start(s, 'v'));
        m + 1
    }
}

proof fn lemma_behind(x: Seq<char>, y: Seq<char>)
    requires
        forall|i: int| 0 <= i < y.len() ==> #[trigger] y[i] != '@',
    ensures
        install::behind_last(x.push('@') + y, '@') == y,
    decreases y.len(),
{
    let s = x.push('@') + y;
    if y.len() == 0 {
        assert(s == x.push('@'));
    } else {
        let z = y.drop_last();
        assert forall|i: int| 0 <= i < z.len() implies #[trigger] z[i] != '@' by {
            assert(z[i] == y[i]);
        }
        assert(s.last() == y[y.len() - 1]);
        assert(s.drop_last() == x.push('@') + z);
        lemma_behind(x, z);
        assert(z.push(y.last()) == y);
    }
}

proof fn lemma_target()
    ensures
        install::target() == "0.1.1-rc.2"@,
        "0.1.1-rc.2"@.len() == 10,
        "0.1.1-rc.2"@[0] == '0',
        "0.1.1-rc.2"@[9] == '2',
{
    reveal_strlit("0.1.1-rc.2");
    reveal_strlit("@deepseek-ai/dsh@0.1.1-rc.2");
    let y = "0.1.1-rc.2"@;
    let p = install::DSH_PKG@;
    assert(y.len() == 10);
    assert(p.len() == 27);
    let x = p.take(16);
    assert(p =~= x.push('@') + y);
    lemma_behind(x, y);
    let none = Seq::<char>::empty();
    text_laws::law_trimmed(none, y, none);
    assert(none + y + none == y);
}

proof fn lemma_pinned(v: Option<String>)
    ensures
        install::is_target(v) <==> v is Some && tells_pinned(v->0@),
{
    lemma_target();
    let p = "0.1.1-rc.2"@;
    if v is Some {
        let s = v->0@;
        if tells_pinned(s) {
            let (n, a, b) = choose|n: nat, a: Seq<char>, b: Seq<char>|
                s == #[trigger] (vees(n) + a + p + b) && text::blank(a) && text::blank(b);
            let rest = a + p + b;
            assert(s == vees(n) + rest);
            if a.len() > 0 {
                assert(text::white(a[0]));
                assert(rest[0] == a[0]);
            } else {
                assert(rest[0] == p[0]);
            }
            lemma_stripped(n, rest);
            text_laws::law_trimmed(a, p, b);
        }
        if install::is_target(v) {
            let n = lemma_unstripped(s);
            let t = text::stripped_start(s, 'v');
            let (a, b) = text_laws::lemma_around(t);
            assert(s == vees(n) + a + p + b);
        }
    }
}

/// Where some candidate tells exactly "0.1.1-rc.2", the chosen one tells exactly that too,
/// and is the first to do so. Where none does, the first that tells anything is chosen, and
/// where none tells anything none is.
pub proof fn law_pinned_version_is_chosen(vs: Seq<Option<String>>, r: Option<usize>)
    requires
        install::chosen(vs, r),
    ensures
        (exists|i: int|
            0 <= i < vs.len() && (#[trigger] vs[i]) is Some && tells_pinned(vs[i]->0@)) ==> {
            &&& r matches Some(n)
            &&& n < vs.len()
            &&& vs[n as int] is Some
            &&& tells_pinned(vs[n as int]->0@)
            &&& forall|i: int|
                0 <= i < n && (#[trigger] vs[i]) is Some ==> !tells_pinned(vs[i]->0@)
        },
        (forall|i: int|
            0 <= i < vs.len() && (#[trigger] vs[i]) is Some ==> !tells_pinned(vs[i]->0@)) ==> (
        match r {
            Some(n) => n < vs.len() && vs[n as int] is Some && forall|i: int|
                0 <= i < n ==> (#[trigger] vs[i]) is None,
            None => forall|i: int| 0 <= i < vs.len() ==> (#[trigger] vs[i]) is None,
        }),
{
    assert forall|i: int| 0 <= i < vs.len() implies install::is_target(#[trigger] vs[i]) == (vs[i]
        is Some && tells_pinned(vs[i]->0@)) by {
        lemma_pinned(vs[i]);
    }
    if r is Some {
        let n = r->0 as int;
        assert(install::is_target(vs[n]) == (vs[n] is Some && tells_pinned(vs[n]->0@)));
    }
}

proof fn lemma_first_piece(x: Seq<char>, y: Seq<char>)
    requires
        forall|i: int| 0 <= i < x.len() ==> #[trigger] x[i] != '.',
    ensures
        install::pieces(x.push('.') + y, '.') == seq![x] + install::pieces(y, '.'),
        install::pieces(x, '.') == seq![x],
{
    let s = x.push('.') + y;
    assert forall|i: int| 0 <= i < x.len() implies s[i] != '.' by {
        assert(s[i] == x[i]);
    }
    text::lemma_cut_unique(s, '.', x.len() as int);
    assert(s.take(x.len() as int) == x);
    assert(s.skip(x.len() as int + 1) == y);
    text::lemma_cut_unique(x, '.', x.len() as int);
}

proof fn lemma_plain_decimal(n: nat)
    ensures
        forall|i: int| 0 <= i < text::decimal(n).len() ==> #[trigger] text::decimal(n)[i] != '.',
        text::decimal(n)[0] != 'v',
        text::decimal(n).len() > 0,
{
    text_laws::lemma_decimal(n);
    let s = text::decimal(n);
    assert forall|i: int| 0 <= i < s.len() implies #[trigger] s[i] != '.' by {
        assert(text::is_digit(s[i]));
    }
    assert(text::is_digit(s[0]));
}

/// A version such as `v22.12.3` stands for its three numbers, behind any number of letters
/// `v`, also where a further part follows.
pub proof fn law_version_numbers(k: nat, a: nat, b: nat, c: nat, more: Seq<char>)
    requires
        a <= u64::MAX,
        b <= u64::MAX,
        c <= u64::MAX,
    ensures
        install::version_numbers(
            vees(k) + text::decimal(a) + "."@ + text::decimal(b) + "."@ + text::decimal(c),
        ) == (a, b, c),
        install::version_numbers(
            vees(k) + text::decimal(a) + "."@ + text::decimal(b) + "."@ + text::decimal(c) + "."@
                + more,
        ) == (a, b, c),
        install::version_numbers(vees(k) + text::decimal(a)) == (a, 0nat, 0nat),
{
    reveal_strlit(".");
    lemma_plain_decimal(a);
    lemma_plain_decimal(b);
    lemma_plain_decimal(c);
    text_laws::law_decimal(a, 0, u64::MAX as nat);
    text_laws::law_decimal(b, 0, u64::MAX as nat);
    text_laws::law_decimal(c, 0, u64::MAX as nat);
    let x = text::decimal(a);
    let y = text::decimal(b);
    let z = text::decimal(c);
    let w = z.push('.') + more;
    lemma_first_piece(z, more);
    lemma_first_piece(y, z);
    lemma_first_piece(y, w);
    lemma_first_piece(x, y.push('.') + z);
    lemma_first_piece(x, y.push('.') + w);
    let s = x.push('.') + (y.push('.') + z);
    let t = x.push('.') + (y.push('.') + w);
    assert(s[0] == x[0] && t[0] == x[0]);
    lemma_stripped(k, s);
    lemma_stripped(k, t);
    lemma_stripped(k, x);
    assert(vees(k) + s == vees(k) + x + "."@ + y + "."@ + z);
    assert(vees(k) + t == vees(k) + x + "."@ + y + "."@ + z + "."@ + more);
    let ps = install::pieces(s, '.');
    let qs = install::pieces(t, '.');
    assert(ps[0] == x && ps[1] == y && ps[2] == z);
    assert(qs[0] == x && qs[1] == y && qs[2] == z);
}

/// A part of a version that is no number counts as 0.
pub proof fn law_no_version_number(k: nat, a: nat, b: nat, s: Seq<char>, i: int)
    requires
        a <= u64::MAX,
        b <= u64::MAX,
        forall|j: int| 0 <= j < s.len() ==> #[trigger] s[j] != '.',
        0 <= i < s.len(),
        !('0' <= s[i] <= '9'),
        i > 0 || s[0] != '+' || s.len() == 1,
    ensures
        install::version_numbers(
            vees(k) + text::decimal(a) + "."@ + text::decimal(b) + "."@ + s,
        ) == (a, b, 0nat),
{
    reveal_strlit(".");
    lemma_plain_decimal(a);
    lemma_plain_decimal(b);
    text_laws::law_decimal(a, 0, u64::MAX as nat);
    text_laws::law_decimal(b, 0, u64::MAX as nat);
    text_laws::law_no_number(s, i, u64::MAX as nat);
    let x = text::decimal(a);
    let y = text::decimal(b);
    lemma_first_piece(s, Seq::empty());
    lemma_first_piece(y, s);
    lemma_first_piece(x, y.push('.') + s);
    let t = x.push('.') + (y.push('.') + s);
    assert(t[0] == x[0]);
    lemma_stripped(k, t);
    assert(vees(k) + t == vees(k) + x + "."@ + y + "."@ + s);
    let ps = install::pieces(t, '.');
    assert(ps[0] == x && ps[1] == y && ps[2] == s);
}

/// A version comes in front of another where its first number is higher; where these are the
/// same, the second decides, and then the third.
pub proof fn law_newest_first(o: Seq<usize>, vs: Seq<Seq<char>>, i: int, j: int)
    requires
        install::newest_first(o, vs),
        0 <= i < j < o.len(),
    ensures
        ({
            let x = install::version_numbers(vs[o[i] as int]);
            let y = install::version_numbers(vs[o[j] as int]);
            &&& x.0 >= y.0
            &&& x.0 == y.0 ==> x.1 >= y.1
            &&& x.0 == y.0 && x.1 == y.1 ==> x.2 >= y.2
        }),
        o.len() == vs.len(),
        o[i] != o[j],
{
}

/// dsh is looked for where the shell finds it first, then with the Node versions, then under
/// the home directory, then where packages are installed for all users; without a home
/// directory only the first and the last are looked at.
pub proof fn law_places(
    ps: Seq<PlaceView>,
    shell: bool,
    home: bool,
    versions: Seq<usize>,
    i: int,
)
    requires
        install::looked_for(ps, shell, home, versions),
    ensures
        ({
            let n: int = if shell {
                1
            } else {
                0
            };
            let m: int = if home {
                n + versions.len() as int
            } else {
                n
            };
            let f: int = if home {
                m + 3
            } else {
                m
            };
            &&& shell ==> ps[0] == PlaceView::Shell
            &&& n <= i < m ==> ps[i] == PlaceView::Nvm(versions[i - n] as int)
            &&& home ==> ps[m] == PlaceView::Home(".local/bin/dsh"@)
            &&& home ==> ps[m + 1] == PlaceView::Home("Library/pnpm/dsh"@)
            &&& home ==> ps[m + 2] == PlaceView::Home(".volta/bin/dsh"@)
            &&& ps.len() == f + 4
            &&& ps[f] == PlaceView::Fixed("/opt/homebrew/bin/dsh"@)
            &&& ps[f + 1] == PlaceView::Fixed("/opt/homebrew/opt/node@22/bin/dsh"@)
            &&& ps[f + 2] == PlaceView::Fixed("/usr/local/bin/dsh"@)
            &&& ps[f + 3] == PlaceView::Fixed("/usr/local/opt/node@22/bin/dsh"@)
        }),
{
}

/// The places that count are those where there is a file, and the one that the shell found,
/// in the order in which they are looked at.
pub proof fn law_present(ps: Seq<PlaceView>, file: Seq<bool>, n: int)
    requires
        0 <= n <= usize::MAX,
    ensures
        forall|k: int|
            0 <= k < n ==> (install::counted(ps, file, n).contains(#[trigger] (k as usize)) <==> ps[k]
                is Shell || file[k]),
        forall|i: int|
            0 <= i < install::counted(ps, file, n).len() ==> (#[trigger] install::counted(
                ps,
                file,
                n,
            )[i]) < n,
        forall|i: int, j: int|
            0 <= i < j < install::counted(ps, file, n).len() ==> (#[trigger] install::counted(
                ps,
                file,
                n,
            )[i]) < (#[trigger] install::counted(ps, file, n)[j]),
    decreases n,
{
    if n > 0 {
        law_present(ps, file, n - 1);
        let c = install::counted(ps, file, n - 1);
        let d = install::counted(ps, file, n);
        let z = (n - 1) as usize;
        assert forall|k: int| 0 <= k < n implies (d.contains(#[trigger] (k as usize)) <==> ps[k] is Shell
            || file[k]) by {
            if c.contains(k as usize) {
                let i = choose|i: int| 0 <= i < c.len() && c[i] == k as usize;
                assert(d[i] == c[i]);
            }
            if d.contains(k as usize) {
                let i = choose|i: int| 0 <= i < d.len() && d[i] == k as usize;
                if i < c.len() {
                    assert(c[i] == k as usize);
                }
            }
            if ps[n - 1] is Shell || file[n - 1] {
                assert(d[c.len() as int] == z);
            }
        }
    }
}

/// A program that succeeded tells what it wrote, without white space around it; one that
/// failed or wrote only white space tells nothing.
pub proof fn law_told(o: Option<RunOutput>, a: Seq<char>, mid: Seq<char>, b: Seq<char>)
    requires
        text::blank(a),
        text::blank(b),
        mid.len() > 0,
        !text::white(mid[0]),
        !text::white(mid.last()),
    ensures
        o is None || !o->0.success ==> install::told(o) is None && install::shell_path(o) is None,
        o is Some && o->0.success && outside_text::lossy(o->0.stdout@) == a + mid + b
            ==> install::told(o) == Some(mid),
        o is Some && outside_text::lossy(o->0.stdout@) == a ==> install::told(o) is None,
{
    text_laws::law_trimmed(a, mid, b);
}

/// The path of dsh is on the last line that the shell wrote, whatever its start-up files
/// wrote before it.
pub proof fn law_shell_path(o: RunOutput, before: Seq<char>, a: Seq<char>, path: Seq<char>, b: Seq<char>)
    requires
        o.success,
        outside_text::lossy(o.stdout@) == before + (a + path + b),
        before.len() == 0 || before.last() == '\n',
        text::blank(a),
        text::blank(b),
        path.len() > 0,
        !text::white(path[0]),
        !text::white(path.last()),
        text_laws::unbroken(a + path),
        text_laws::unbroken(b) || (b.len() > 0 && b.last() == '\n' && text_laws::unbroken(
            b.drop_last(),
        )),
    ensures
        install::shell_path(Some(o)) == Some(path),
{
    let l = a + path + b;
    text_laws::law_trimmed(a, path, b);
    lines::lemma_lines_add(before, l);
    let none = Seq::<char>::empty();
    if b.len() > 0 && b.last() == '\n' {
        let c = (a + path) + b.drop_last();
        assert(l == c.push('\n'));
        assert(c.push('\n') + none == l);
        assert forall|i: int| 0 <= i < c.len() implies #[trigger] c[i] != '\n' by {
            if i < (a + path).len() {
                assert(c[i] == (a + path)[i]);
            } else {
                assert(c[i] == b.drop_last()[i - (a + path).len()]);
            }
        }
        text_laws::law_lines(c, none);
        assert(lines::lines_of(l) == seq![l]);
    } else {
        assert forall|i: int| 0 <= i < l.len() implies #[trigger] l[i] != '\n' by {
            if i < (a + path).len() {
                assert(l[i] == (a + path)[i]);
            } else {
                assert(l[i] == b[i - (a + path).len()]);
            }
        }
        text_laws::law_lines(l, none);
    }
    let all = lines::lines_of(before + l);
    assert(all.last() == l);
}

} // verus!
