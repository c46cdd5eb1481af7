use vstd::prelude::*;
use vstd::string::*;

use crate::bspc::{
    desktop_leaves, get_client_nodes, lemma_leaves_have_clients, nodes_of, Desktop, Monitor, Node,
    WmState,
};
use crate::formatter::{str_view, styled, Formatter};
use crate::settings::{class_of, window_label, DrawSettings, Settings};

verus! {

pub open spec fn key_views(keys: Seq<String>) -> Seq<Seq<char>> {
    keys.map_values(|k: String| k@)
}

pub open spec fn derefs<T>(s: Seq<&T>) -> Seq<T> {
    s.map_values(|x: &T| *x)
}

pub open spec fn group_views<T>(g: Seq<Vec<&T>>) -> Seq<Seq<T>> {
    g.map_values(|v: Vec<&T>| derefs(v@))
}

/// The maximal runs of consecutive items whose keys are equal, in order.
pub open spec fn group_runs<T>(items: Seq<T>, keys: Seq<Seq<char>>) -> Seq<Seq<T>>
    decreases items.len(),
{
    if items.len() == 0 {
        seq![]
    } else {
        let n = items.len() - 1;
        let prev = group_runs(items.take(n), keys.take(n));
        if n > 0 && keys[n - 1] == keys[n] {
            prev.update(prev.len() - 1, prev.last().push(items[n]))
        } else {
            prev.push(seq![items[n]])
        }
    }
}

/// Splits `input` into maximal runs of neighbours with equal keys; `keys[i]`
/// is the key of `input[i]`. Equal keys that are not adjacent stay apart.
pub fn group_by<'a, T>(input: &'a [T], keys: &[String]) -> (r: Vec<Vec<&'a T>>)
    requires
        input@.len() == keys@.len(),
    ensures
        group_views(r@) == group_runs(input@, key_views(keys@)),
{
    let ghost ks = key_views(keys@);
    let mut result: Vec<Vec<&T>> = Vec::new();
    if input.len() == 0 {
        proof {
            assert(group_views(result@) =~= group_runs(input@, ks));
        }
        return result;
    }
    let mut current: Vec<&T> = Vec::new();
    current.push(&input[0]);
    proof {
        let t1 = input@.take(1);
        assert(t1.take(0) =~= Seq::<T>::empty());
        assert(group_runs(t1.take(0), ks.take(1).take(0)) == Seq::<Seq<T>>::empty());
        assert(group_runs(t1, ks.take(1)) =~= seq![seq![input@[0]]]);
        assert(derefs(current@) =~= seq![input@[0]]);
        assert(group_views(result@) =~= Seq::<Seq<T>>::empty());
        assert(group_views(result@).push(derefs(current@)) =~= seq![seq![input@[0]]]);
    }
    let mut i: usize = 1;
    while i < input.len()
        invariant
            input@.len() == keys@.len(),
            ks == key_views(keys@),
            1 <= i <= input@.len(),
            current@.len() > 0,
            group_runs(input@.take(i as int), ks.take(i as int)) == group_views(result@).push(
                derefs(current@),
            ),
        decreases input@.len() - i,
    {
        let ghost prev_result = result@;
        let ghost prev_current = current@;
        let same = keys[i - 1] == keys[i];
        proof {
            let t = input@.take(i + 1);
            let k = ks.take(i + 1);
            assert(t.take(i as int) =~= input@.take(i as int));
            assert(k.take(i as int) =~= ks.take(i as int));
            assert(k[i - 1] == keys@[i - 1]@);
            assert(k[i as int] == keys@[i as int]@);
        }
        if same {
            current.push(&input[i]);
            proof {
                assert(derefs(current@) =~= derefs(prev_current).push(input@[i as int]));
                assert(group_runs(input@.take(i + 1), ks.take(i + 1)) =~= group_views(result@).push(
                    derefs(current@),
                ));
            }
        } else {
            result.push(current);
            current = Vec::new();
            current.push(&input[i]);
            proof {
                assert(group_views(result@) =~= group_views(prev_result).push(derefs(prev_current)));
                assert(derefs(current@) =~= seq![input@[i as int]]);
                assert(group_runs(input@.take(i + 1), ks.take(i + 1)) =~= group_views(result@).push(
                    derefs(current@),
                ));
            }
        }
        i += 1;
    }
    result.push(current);
    proof {
        assert(input@.take(input@.len() as int) =~= input@);
        assert(ks.take(input@.len() as int) =~= ks);
        assert(group_views(result@) =~= group_runs(input@, ks));
    }
    result
}

/// Items of `items.map(f)` grouped as `items` are.
proof fn lemma_group_runs_map<T, U>(items: Seq<T>, keys: Seq<Seq<char>>, f: spec_fn(T) -> U)
    ensures
        group_runs(items.map_values(f), keys) == group_runs(items, keys).map_values(
            |g: Seq<T>| g.map_values(f),
        ),
    decreases items.len(),
{
    let mapped = items.map_values(f);
    if items.len() > 0 {
        let n = items.len() - 1;
        assert(mapped.take(n) =~= items.take(n).map_values(f));
        lemma_group_runs_map(items.take(n), keys.take(n), f);
        let prev = group_runs(items.take(n), keys.take(n));
        let mprev = prev.map_values(|g: Seq<T>| g.map_values(f));
        if n > 0 && keys[n - 1] == keys[n] {
            assert(prev.len() > 0) by {
                assert(items.take(n).len() > 0);
                lemma_group_runs_len(items.take(n), keys.take(n));
            }
            assert(prev.last().push(items[n]).map_values(f) =~= mprev.last().push(mapped[n]));
            assert(group_runs(mapped, keys) =~= group_runs(items, keys).map_values(
                |g: Seq<T>| g.map_values(f),
            ));
        } else {
            assert(seq![items[n]].map_values(f) =~= seq![mapped[n]]);
            assert(group_runs(mapped, keys) =~= group_runs(items, keys).map_values(
                |g: Seq<T>| g.map_values(f),
            ));
        }
    }
}

proof fn lemma_group_runs_len<T>(items: Seq<T>, keys: Seq<Seq<char>>)
    ensures
        items.len() > 0 ==> group_runs(items, keys).len() > 0,
        forall|j: int|
            0 <= j < group_runs(items, keys).len() ==> (#[trigger] group_runs(items, keys)[j]).len()
                > 0,
    decreases items.len(),
{
    if items.len() > 0 {
        let n = items.len() - 1;
        lemma_group_runs_len(items.take(n), keys.take(n));
        let prev = group_runs(items.take(n), keys.take(n));
        let r = group_runs(items, keys);
        assert forall|j: int| 0 <= j < r.len() implies (#[trigger] r[j]).len() > 0 by {
            if n > 0 && keys[n - 1] == keys[n] {
                if j != prev.len() - 1 {
                    assert(r[j] == prev[j]);
                }
            } else if j < prev.len() {
                assert(r[j] == prev[j]);
            }
        }
    }
}

/// A property of every item holds of every member of every run.
proof fn lemma_group_runs_members<T>(items: Seq<T>, keys: Seq<Seq<char>>, p: spec_fn(T) -> bool)
    requires
        forall|i: int| 0 <= i < items.len() ==> p(#[trigger] items[i]),
    ensures
        forall|j: int, m: int|
            0 <= j < group_runs(items, keys).len() && 0 <= m < group_runs(items, keys)[j].len()
                ==> p(#[trigger] group_runs(items, keys)[j][m]),
    decreases items.len(),
{
    if items.len() > 0 {
        let n = items.len() - 1;
        let t = items.take(n);
        assert forall|i: int| 0 <= i < t.len() implies p(#[trigger] t[i]) by {
            assert(t[i] == items[i]);
        }
        lemma_group_runs_members(t, keys.take(n), p);
        lemma_group_runs_len(t, keys.take(n));
        let prev = group_runs(t, keys.take(n));
        let r = group_runs(items, keys);
        assert forall|j: int, m: int| 0 <= j < r.len() && 0 <= m < r[j].len() implies p(
            #[trigger] r[j][m],
        ) by {
            if n > 0 && keys[n - 1] == keys[n] {
                if j != prev.len() - 1 {
                    assert(r[j] == prev[j]);
                } else if m < prev[j].len() {
                    assert(r[j][m] == prev[j][m]);
                }
            } else if j < prev.len() {
                assert(r[j] == prev[j]);
            }
        }
    }
}

pub open spec fn positions(n: int) -> Seq<int> {
    Seq::new(n as nat, |i: int| i)
}

/// `g` splits the positions `0..n` into non-empty runs of consecutive
/// positions, in order.
pub open spec fn runs_cover(g: Seq<Seq<int>>, n: int) -> bool {
    &&& (n == 0 <==> g.len() == 0)
    &&& forall|j: int| 0 <= j < g.len() ==> (#[trigger] g[j]).len() > 0
    &&& forall|j: int, m: int| 0 <= j < g.len() && 0 <= m < g[j].len() ==> 0 <= #[trigger] g[j][m] < n
    &&& g.len() > 0 ==> g[0][0] == 0 && g.last().last() == n - 1
    &&& forall|j: int, m: int|
        0 <= j < g.len() && 0 < m < g[j].len() ==> #[trigger] g[j][m] == g[j][m - 1] + 1
    &&& forall|j: int| 0 < j < g.len() ==> (#[trigger] g[j])[0] == g[j - 1].last() + 1
}

/// Within a run the keys are equal; where two runs meet they differ.
pub open spec fn runs_split_keys(g: Seq<Seq<int>>, keys: Seq<Seq<char>>) -> bool {
    &&& forall|j: int, m: int|
        0 <= j < g.len() && 0 < m < g[j].len() ==> keys[#[trigger] g[j][m]] == keys[g[j][m - 1]]
    &&& forall|j: int| 0 < j < g.len() ==> keys[(#[trigger] g[j])[0]] != keys[g[j - 1].last()]
}

proof fn lemma_cover_extend(prev: Seq<Seq<int>>, n: int)
    requires
        runs_cover(prev, n),
        n >= 0,
    ensures
        n > 0 ==> runs_cover(prev.update(prev.len() - 1, prev.last().push(n)), n + 1),
        runs_cover(prev.push(seq![n]), n + 1),
{
    if n > 0 {
        let g = prev.update(prev.len() - 1, prev.last().push(n));
        assert forall|j: int, m: int| 0 <= j < g.len() && 0 < m < g[j].len() implies #[trigger] g[j][m]
            == g[j][m - 1] + 1 by {
            if j < prev.len() - 1 {
                assert(g[j] == prev[j]);
            }
        }
        assert forall|j: int, m: int| 0 <= j < g.len() && 0 <= m < g[j].len() implies 0
            <= #[trigger] g[j][m] < n + 1 by {
            if j < prev.len() - 1 {
                assert(g[j] == prev[j]);
            } else if m < prev[j].len() {
                assert(g[j][m] == prev[j][m]);
            }
        }
        assert forall|j: int| 0 < j < g.len() implies (#[trigger] g[j])[0] == g[j - 1].last() + 1 by {
            if j < prev.len() - 1 {
                assert(g[j] == prev[j]);
            } else {
                assert(g[j][0] == prev[j][0]);
            }
        }
    }
    let h = prev.push(seq![n]);
    assert forall|j: int, m: int| 0 <= j < h.len() && 0 < m < h[j].len() implies #[trigger] h[j][m]
        == h[j][m - 1] + 1 by {
        assert(h[j] == prev[j]);
    }
}

proof fn lemma_keys_extend(prev: Seq<Seq<int>>, keys: Seq<Seq<char>>, n: int)
    requires
        runs_cover(prev, n),
        runs_split_keys(prev, keys.take(n)),
        0 <= n < keys.len(),
    ensures
        n > 0 && keys[n - 1] == keys[n] ==> runs_split_keys(
            prev.update(prev.len() - 1, prev.last().push(n)),
            keys,
        ),
        !(n > 0 && keys[n - 1] == keys[n]) ==> runs_split_keys(prev.push(seq![n]), keys),
{
    let t = keys.take(n);
    assert forall|j: int, m: int| 0 <= j < prev.len() && 0 < m < prev[j].len() implies keys[
        #[trigger] prev[j][m]] == keys[prev[j][m - 1]] by {
        assert(t[prev[j][m]] == keys[prev[j][m]]);
        assert(t[prev[j][m - 1]] == keys[prev[j][m - 1]]);
    }
    assert forall|j: int| 0 < j < prev.len() implies keys[(#[trigger] prev[j])[0]] != keys[prev[j
        - 1].last()] by {
        assert(t[prev[j][0]] == keys[prev[j][0]]);
        assert(t[prev[j - 1].last()] == keys[prev[j - 1].last()]);
    }
    if n > 0 && keys[n - 1] == keys[n] {
        let g = prev.update(prev.len() - 1, prev.last().push(n));
        assert forall|j: int, m: int| 0 <= j < g.len() && 0 < m < g[j].len() implies keys[
            #[trigger] g[j][m]] == keys[g[j][m - 1]] by {
            if j < prev.len() - 1 {
                assert(g[j] == prev[j]);
            } else if m < prev[j].len() {
                assert(g[j][m] == prev[j][m]);
            }
        }
        assert forall|j: int| 0 < j < g.len() implies keys[(#[trigger] g[j])[0]] != keys[g[j
            - 1].last()] by {
            if j < prev.len() - 1 {
                assert(g[j] == prev[j]);
            } else {
                assert(g[j][0] == prev[j][0]);
            }
        }
    } else {
        let h = prev.push(seq![n]);
        assert forall|j: int, m: int| 0 <= j < h.len() && 0 < m < h[j].len() implies keys[
            #[trigger] h[j][m]] == keys[h[j][m - 1]] by {
            assert(h[j] == prev[j]);
        }
        assert forall|j: int| 0 < j < h.len() implies keys[(#[trigger] h[j])[0]] != keys[h[j
            - 1].last()] by {
            assert(h[j - 1] == prev[j - 1]);
        }
    }
}

/// Grouping the positions `0..n` of `n` keys yields the maximal runs of equal
/// keys: non-empty runs of consecutive positions that cover `0..n` in order,
/// equal keys within a run, different keys where two runs meet. So equal keys
/// that are not adjacent are never merged.
pub proof fn lemma_runs_are_maximal(keys: Seq<Seq<char>>)
    ensures
        runs_cover(group_runs(positions(keys.len() as int), keys), keys.len() as int),
        runs_split_keys(group_runs(positions(keys.len() as int), keys), keys),
    decreases keys.len(),
{
    let n = keys.len() as int;
    if n > 0 {
        let k = n - 1;
        assert(positions(n).take(k) =~= positions(k));
        assert(keys.take(k).len() == k);
        lemma_runs_are_maximal(keys.take(k));
        let prev = group_runs(positions(k), keys.take(k));
        assert(prev == group_runs(positions(n).take(k), keys.take(k)));
        lemma_cover_extend(prev, k);
        lemma_keys_extend(prev, keys, k);
        assert(positions(n)[k] == k);
    }
}

/// Grouping any items goes by their positions: the runs of `items` are the
/// runs of positions, each position replaced by its item.
pub proof fn lemma_runs_of_items<T>(items: Seq<T>, keys: Seq<Seq<char>>)
    requires
        items.len() == keys.len(),
    ensures
        group_runs(items, keys) == group_runs(positions(keys.len() as int), keys).map_values(
            |g: Seq<int>| g.map_values(|i: int| items[i]),
        ),
{
    let f = |i: int| items[i];
    assert(positions(keys.len() as int).map_values(f) =~= items);
    lemma_group_runs_map(positions(keys.len() as int), keys, f);
}

/// The glyph that numbers the desktop at position `d`.
pub open spec fn subscript(d: int) -> Seq<char> {
    if d == 0 {
        "\u{2081}"@
    } else if d == 1 {
        "\u{2082}"@
    } else if d == 2 {
        "\u{2083}"@
    } else if d == 3 {
        "\u{2084}"@
    } else if d == 4 {
        "\u{2085}"@
    } else if d == 5 {
        "\u{2086}"@
    } else if d == 6 {
        "\u{2087}"@
    } else if d == 7 {
        "\u{2088}"@
    } else if d == 8 {
        "\u{2089}"@
    } else if d == 9 {
        "\u{2080}"@
    } else {
        "?"@
    }
}

/// The glyph for a group of `n` windows.
pub open spec fn superscript(n: int) -> Seq<char> {
    if n == 0 {
        "\u{2070}"@
    } else if n == 1 {
        "\u{00b9}"@
    } else if n == 2 {
        "\u{00b2}"@
    } else if n == 3 {
        "\u{00b3}"@
    } else if n == 4 {
        "\u{2074}"@
    } else if n == 5 {
        "\u{2075}"@
    } else if n == 6 {
        "\u{2076}"@
    } else if n == 7 {
        "\u{2077}"@
    } else if n == 8 {
        "\u{2078}"@
    } else if n == 9 {
        "\u{2079}"@
    } else {
        "\u{207f}"@
    }
}

/// The mark after a group's icon: a count glyph for two or more windows.
pub open spec fn count_mark(n: int) -> Seq<char> {
    if n > 1 {
        superscript(n)
    } else {
        " "@
    }
}

fn subscript_glyph(d: usize) -> (r: &'static str)
    ensures
        r@ == subscript(d as int),
{
    match d {
        0 => "\u{2081}",
        1 => "\u{2082}",
        2 => "\u{2083}",
        3 => "\u{2084}",
        4 => "\u{2085}",
        5 => "\u{2086}",
        6 => "\u{2087}",
        7 => "\u{2088}",
        8 => "\u{2089}",
        9 => "\u{2080}",
        _ => "?",
    }
}

fn count_glyph(n: usize) -> (r: &'static str)
    ensures
        r@ == count_mark(n as int),
{
    match n {
        0 | 1 => " ",
        2 => "\u{00b2}",
        3 => "\u{00b3}",
        4 => "\u{2074}",
        5 => "\u{2075}",
        6 => "\u{2076}",
        7 => "\u{2077}",
        8 => "\u{2078}",
        9 => "\u{2079}",
        _ => "\u{207f}",
    }
}

pub open spec fn decimal_digits() -> Seq<char> {
    seq!['0', '1', '2', '3', '4', '5', '6', '7', '8', '9']
}

/// The decimal digits of `n`, none for zero.
pub open spec fn digits_of(n: nat) -> Seq<char>
    decreases n,
{
    if n == 0 {
        seq![]
    } else {
        digits_of(n / 10).push(decimal_digits()[(n % 10) as int])
    }
}

/// The decimal text of an integer, with a leading `-` when negative.
pub open spec fn int_text(i: int) -> Seq<char> {
    let a: nat = if i < 0 {
        (-i) as nat
    } else {
        i as nat
    };
    let body = if a == 0 {
        seq!['0']
    } else {
        digits_of(a)
    };
    if i < 0 {
        seq!['-'] + body
    } else {
        body
    }
}

pub(crate) fn int_to_text(i: i32) -> (r: String)
    ensures
        r@ == int_text(i as int),
{
    let digits = "0123456789";
    proof {
        reveal_strlit("0123456789");
        assert(digits@ =~= decimal_digits());
    }
    let a: u64 = if i < 0 {
        (-(i as i64)) as u64
    } else {
        i as u64
    };
    let mut v: u64 = a;
    let mut s = String::new();
    while v > 0
        invariant
            digits@ == decimal_digits(),
            digits_of(a as nat) == digits_of(v as nat) + s@,
        decreases v,
    {
        let d = (v % 10) as usize;
        let ghost old_s = s@;
        s = String::from_str(digits.substring_char(d, d + 1)).concat(s.as_str());
        proof {
            assert(digits_of(v as nat) == digits_of((v / 10) as nat).push(decimal_digits()[d as int]));
            assert(digits_of(v as nat) + old_s =~= digits_of((v / 10) as nat) + s@);
        }
        v = v / 10;
    }
    proof {
        assert(digits_of(a as nat) =~= s@);
    }
    if a == 0 {
        s = String::from_str("0");
        proof {
            reveal_strlit("0");
        }
    }
    if i < 0 {
        proof {
            reveal_strlit("-");
        }
        String::from_str("-").concat(s.as_str())
    } else {
        s
    }
}

/// The title recorded for window `id`: the first entry with that id.
pub open spec fn title_of(titles: Seq<(i32, String)>, id: i32) -> Option<Seq<char>>
    decreases titles.len(),
{
    if titles.len() == 0 {
        None
    } else if titles[0].0 == id {
        Some(titles[0].1@)
    } else {
        title_of(titles.drop_first(), id)
    }
}

fn title_lookup(titles: &Vec<(i32, String)>, id: i32) -> (r: Option<&str>)
    ensures
        str_view(r) == title_of(titles@, id),
{
    let mut i: usize = 0;
    proof {
        assert(titles@.subrange(0, titles@.len() as int) =~= titles@);
    }
    while i < titles.len()
        invariant
            i <= titles@.len(),
            title_of(titles@, id) == title_of(titles@.subrange(i as int, titles@.len() as int), id),
        decreases titles@.len() - i,
    {
        let ghost rest = titles@.subrange(i as int, titles@.len() as int);
        proof {
            assert(rest.drop_first() =~= titles@.subrange(i + 1, titles@.len() as int));
        }
        if titles[i].0 == id {
            return Some(titles[i].1.as_str());
        }
        i += 1;
    }
    None
}

/// The label of a window under the configured rules.
pub open spec fn label_of(settings: Settings, titles: Seq<(i32, String)>, n: Node) -> Seq<char> {
    window_label(settings.icons.icons@, class_of(n), title_of(titles, n.id))
}

pub open spec fn labels_of(settings: Settings, titles: Seq<(i32, String)>, nodes: Seq<Node>) -> Seq<
    Seq<char>,
> {
    nodes.map_values(|n: Node| label_of(settings, titles, n))
}

pub open spec fn any_urgent(g: Seq<Node>) -> bool {
    exists|i: int| 0 <= i < g.len() && (#[trigger] g[i]).client->0.urgent
}

pub open spec fn holds_node(g: Seq<Node>, id: i32) -> bool {
    exists|i: int| 0 <= i < g.len() && (#[trigger] g[i]).id == id
}

/// The style of a group: urgent before focused before the default.
pub open spec fn group_style(ds: DrawSettings, urgent: bool, focused: bool) -> Formatter {
    if urgent {
        ds.urgent_node_draw_mode
    } else if focused {
        ds.focused_node_draw_mode
    } else {
        ds.node_draw_mode
    }
}

/// The drawing of one group: its icon and count mark, styled, with a link that
/// focuses its first window.
pub open spec fn group_text(
    settings: Settings,
    titles: Seq<(i32, String)>,
    g: Seq<Node>,
    desktop_focused: bool,
    focused_node: i32,
) -> Seq<char> {
    let style = group_style(
        settings.draw_settings,
        any_urgent(g),
        desktop_focused && holds_node(g, focused_node),
    );
    styled(
        style,
        label_of(settings, titles, g[0]) + " "@ + count_mark(g.len() as int),
        Some("bspc node -f "@ + int_text(g[0].id as int)),
    )
}

pub open spec fn concat_all(parts: Seq<Seq<char>>) -> Seq<char>
    decreases parts.len(),
{
    if parts.len() == 0 {
        seq![]
    } else {
        concat_all(parts.drop_last()) + parts.last()
    }
}

/// `parts` with `sep` between each two neighbours.
pub open spec fn join_with(parts: Seq<Seq<char>>, sep: Seq<char>) -> Seq<char>
    decreases parts.len(),
{
    if parts.len() == 0 {
        seq![]
    } else if parts.len() == 1 {
        parts[0]
    } else {
        join_with(parts.drop_last(), sep) + sep + parts.last()
    }
}

pub open spec fn opt_text(o: Option<String>, absent: Seq<char>) -> Seq<char> {
    match o {
        Some(s) => s@,
        None => absent,
    }
}

/// The drawing of a desktop at position `index`, or none for a desktop with
/// no window that is not focused.
pub open spec fn desktop_piece(
    settings: Settings,
    titles: Seq<(i32, String)>,
    d: Desktop,
    index: int,
    focused: bool,
) -> Option<Seq<char>> {
    let leaves = desktop_leaves(d);
    if leaves.len() == 0 && !focused {
        None
    } else {
        let ds = settings.draw_settings;
        let groups = group_runs(leaves, labels_of(settings, titles, leaves));
        let inner = subscript(index) + opt_text(ds.prefix, " "@) + concat_all(
            groups.map_values(|g: Seq<Node>| group_text(settings, titles, g, focused, d.focused_node_id)),
        ) + opt_text(ds.postfix, seq![]);
        let style = if focused {
            ds.focused_workspace_draw_mode
        } else {
            ds.workspace_draw_mode
        };
        Some(styled(style, inner, Some("bspc desktop -f '"@ + d.name@ + "'"@)))
    }
}

/// A desktop without windows is drawn only when it is focused, and then with
/// nothing between its prefix and postfix.
pub proof fn lemma_empty_desktop(settings: Settings, titles: Seq<(i32, String)>, d: Desktop, index: int)
    requires
        desktop_leaves(d).len() == 0,
    ensures
        desktop_piece(settings, titles, d, index, false) is None,
        desktop_piece(settings, titles, d, index, true) == Some(
            styled(
                settings.draw_settings.focused_workspace_draw_mode,
                subscript(index) + opt_text(settings.draw_settings.prefix, " "@) + opt_text(
                    settings.draw_settings.postfix,
                    seq![],
                ),
                Some("bspc desktop -f '"@ + d.name@ + "'"@),
            ),
        ),
{
    let leaves = desktop_leaves(d);
    let groups = group_runs(leaves, labels_of(settings, titles, leaves));
    assert(groups.len() == 0);
    let texts = groups.map_values(
        |g: Seq<Node>| group_text(settings, titles, g, true, d.focused_node_id),
    );
    assert(texts.len() == 0);
    assert(concat_all(texts) == Seq::<char>::empty());
    let ds = settings.draw_settings;
    assert(subscript(index) + opt_text(ds.prefix, " "@) + concat_all(texts) + opt_text(
        ds.postfix,
        seq![],
    ) =~= subscript(index) + opt_text(ds.prefix, " "@) + opt_text(ds.postfix, seq![]));
}

/// The drawings of the first `k` desktops of `m` that are drawn.
pub open spec fn monitor_pieces(
    settings: Settings,
    titles: Seq<(i32, String)>,
    m: Monitor,
    monitor_focused: bool,
    base: int,
    k: int,
) -> Seq<Seq<char>>
    decreases k,
{
    if 0 < k <= m.desktops@.len() {
        let prev = monitor_pieces(settings, titles, m, monitor_focused, base, k - 1);
        let d = m.desktops@[k - 1];
        match desktop_piece(
            settings,
            titles,
            d,
            base + k - 1,
            monitor_focused && d.id == m.focused_desktop_id,
        ) {
            Some(p) => prev.push(p),
            None => prev,
        }
    } else {
        seq![]
    }
}

/// The drawing of a monitor whose first desktop has position `base`: its
/// drawn desktops joined by the separator, with a link that focuses the
/// monitor; nothing when the monitor is filtered out or draws no desktop.
pub open spec fn monitor_text(
    settings: Settings,
    titles: Seq<(i32, String)>,
    m: Monitor,
    focused_monitor_id: i32,
    base: int,
) -> Seq<char> {
    if settings.monitor is Some && settings.monitor->0@ != m.name@ {
        seq![]
    } else {
        let pieces = monitor_pieces(
            settings,
            titles,
            m,
            focused_monitor_id == m.id,
            base,
            m.desktops@.len() as int,
        );
        let ws = settings.draw_settings.workspace_draw_mode;
        if pieces.len() == 0 {
            seq![]
        } else {
            styled(
                ws,
                join_with(pieces, styled(ws, settings.draw_settings.separator@, None)),
                Some("bspc monitor -f '"@ + m.name@ + "'"@),
            )
        }
    }
}

/// The number of desktops on the first `k` monitors.
pub open spec fn desktops_before(ms: Seq<Monitor>, k: int) -> int
    decreases k,
{
    if 0 < k <= ms.len() {
        desktops_before(ms, k - 1) + ms[k - 1].desktops@.len()
    } else {
        0
    }
}

pub open spec fn render_upto(
    state: WmState,
    settings: Settings,
    titles: Seq<(i32, String)>,
    k: int,
) -> Seq<char>
    decreases k,
{
    if 0 < k <= state.monitors@.len() {
        render_upto(state, settings, titles, k - 1) + monitor_text(
            settings,
            titles,
            state.monitors@[k - 1],
            state.focused_monitor_id,
            desktops_before(state.monitors@, k - 1),
        )
    } else {
        seq![]
    }
}

/// The status line for a snapshot: the drawings of its monitors in order.
/// Desktops are numbered across all monitors, those filtered out included.
pub open spec fn render_text(state: WmState, settings: Settings, titles: Seq<(i32, String)>) -> Seq<
    char,
> {
    render_upto(state, settings, titles, state.monitors@.len() as int)
}

pub open spec fn group_nodes(g: Seq<&&Node>) -> Seq<Node> {
    g.map_values(|x: &&Node| **x)
}

pub open spec fn string_views(o: Option<String>) -> Option<Seq<char>> {
    match o {
        Some(s) => Some(s@),
        None => None,
    }
}

fn group_string(
    settings: &Settings,
    titles: &Vec<(i32, String)>,
    g: &Vec<&&Node>,
    desktop_focused: bool,
    focused_node: i32,
) -> (r: String)
    requires
        g@.len() > 0,
        forall|i: int| 0 <= i < g@.len() ==> (#[trigger] g@[i]).client is Some,
    ensures
        r@ == group_text(*settings, titles@, group_nodes(g@), desktop_focused, focused_node),
{
    let ghost nodes = group_nodes(g@);
    let mut urgent = false;
    let mut has_focus = false;
    let mut i: usize = 0;
    while i < g.len()
        invariant
            nodes == group_nodes(g@),
            i <= g@.len(),
            forall|j: int| 0 <= j < g@.len() ==> (#[trigger] g@[j]).client is Some,
            urgent == exists|j: int| 0 <= j < i && (#[trigger] nodes[j]).client->0.urgent,
            has_focus == exists|j: int| 0 <= j < i && (#[trigger] nodes[j]).id == focused_node,
        decreases g@.len() - i,
    {
        let n: &Node = g[i];
        if n.client.as_ref().unwrap().urgent {
            urgent = true;
        }
        if n.id == focused_node {
            has_focus = true;
        }
        proof {
            assert(nodes[i as int] == *n);
        }
        i += 1;
    }
    let first: &Node = g[0];
    proof {
        assert(nodes[0] == *first);
    }
    let icon = settings.icons.get_icon(first, title_lookup(titles, first.id));
    let text = icon.concat(" ").concat(count_glyph(g.len()));
    let ds = &settings.draw_settings;
    let style = if urgent {
        &ds.urgent_node_draw_mode
    } else if desktop_focused && has_focus {
        &ds.focused_node_draw_mode
    } else {
        &ds.node_draw_mode
    };
    let link = String::from_str("bspc node -f ").concat(int_to_text(first.id).as_str());
    style.format(text.as_str(), Some(link.as_str()))
}

fn desktop_string(
    settings: &Settings,
    titles: &Vec<(i32, String)>,
    desktop: &Desktop,
    index: usize,
    focused: bool,
) -> (r: Option<String>)
    ensures
        string_views(r) == desktop_piece(*settings, titles@, *desktop, index as int, focused),
{
    let clients: Vec<&Node> = match &desktop.root {
        Some(root) => {
            proof {
                lemma_leaves_have_clients(*root);
            }
            get_client_nodes(root)
        },
        None => Vec::new(),
    };
    let ghost leaves = desktop_leaves(*desktop);
    proof {
        assert(nodes_of(clients@) =~= leaves);
    }
    if clients.len() == 0 && !focused {
        return None;
    }
    let ds = &settings.draw_settings;
    let mut s = String::from_str(subscript_glyph(index));
    match &ds.prefix {
        Some(p) => s.append(p.as_str()),
        None => s.append(" "),
    }
    let ghost head = s@;
    let mut keys: Vec<String> = Vec::new();
    let mut i: usize = 0;
    while i < clients.len()
        invariant
            nodes_of(clients@) == leaves,
            forall|j: int| 0 <= j < leaves.len() ==> (#[trigger] leaves[j]).client is Some,
            i <= clients@.len(),
            keys@.len() == i,
            forall|j: int|
                0 <= j < i ==> (#[trigger] keys@[j])@ == label_of(*settings, titles@, leaves[j]),
        decreases clients@.len() - i,
    {
        let n: &Node = clients[i];
        proof {
            assert(leaves[i as int] == *n);
        }
        keys.push(settings.icons.get_icon(n, title_lookup(titles, n.id)));
        i += 1;
    }
    let ghost labels = labels_of(*settings, titles@, leaves);
    proof {
        assert(key_views(keys@) =~= labels);
    }
    let groups = group_by(clients.as_slice(), keys.as_slice());
    let ghost spec_groups = group_runs(leaves, labels);
    let ghost texts = spec_groups.map_values(
        |g: Seq<Node>| group_text(*settings, titles@, g, focused, desktop.focused_node_id),
    );
    proof {
        lemma_group_runs_map(clients@, labels, |x: &Node| *x);
        lemma_group_runs_len(leaves, labels);
        lemma_group_runs_members(leaves, labels, |n: Node| n.client is Some);
        assert(clients@.map_values(|x: &Node| *x) =~= leaves);
    }
    let mut k: usize = 0;
    while k < groups.len()
        invariant
            nodes_of(clients@) == leaves,
            forall|j: int| 0 <= j < leaves.len() ==> (#[trigger] leaves[j]).client is Some,
            group_views(groups@) == group_runs(clients@, labels),
            group_runs(clients@.map_values(|x: &Node| *x), labels) == group_runs(clients@, labels).map_values(
                |g: Seq<&Node>| g.map_values(|x: &Node| *x),
            ),
            clients@.map_values(|x: &Node| *x) == leaves,
            spec_groups == group_runs(leaves, labels),
            forall|j: int| 0 <= j < spec_groups.len() ==> (#[trigger] spec_groups[j]).len() > 0,
            forall|j: int, m: int|
                0 <= j < spec_groups.len() && 0 <= m < spec_groups[j].len() ==> (
                #[trigger] spec_groups[j][m]).client is Some,
            texts == spec_groups.map_values(
                |g: Seq<Node>| group_text(*settings, titles@, g, focused, desktop.focused_node_id),
            ),
            k <= groups@.len(),
            s@ == head + concat_all(texts.take(k as int)),
        decreases groups@.len() - k,
    {
        let g = &groups[k];
        proof {
            assert(group_nodes(g@) =~= spec_groups[k as int]);
            assert forall|j: int| 0 <= j < g@.len() implies (#[trigger] g@[j]).client is Some by {
                assert(group_nodes(g@)[j] == **g@[j]);
                assert(spec_groups[k as int][j] == **g@[j]);
            }
        }
        let part = group_string(settings, titles, g, focused, desktop.focused_node_id);
        s.append(part.as_str());
        proof {
            assert(texts.take(k + 1).drop_last() =~= texts.take(k as int));
        }
        k += 1;
    }
    proof {
        assert(texts.take(groups@.len() as int) =~= texts);
    }
    match &ds.postfix {
        Some(p) => s.append(p.as_str()),
        None => {},
    }
    let style = if focused {
        &ds.focused_workspace_draw_mode
    } else {
        &ds.workspace_draw_mode
    };
    let link = String::from_str("bspc desktop -f '").concat(desktop.name.as_str()).concat("'");
    Some(style.format(s.as_str(), Some(link.as_str())))
}

/// The drawing of a monitor that passed the filter; `base` is the position
/// of its first desktop, saturated at `usize::MAX`.
fn monitor_string(
    settings: &Settings,
    titles: &Vec<(i32, String)>,
    monitor: &Monitor,
    monitor_focused: bool,
    base: usize,
    Ghost(exact): Ghost<int>,
) -> (r: String)
    requires
        exact >= 0,
        base as int == if exact > usize::MAX {
            usize::MAX as int
        } else {
            exact
        },
    ensures
        r@ == ({
            let pieces = monitor_pieces(
                *settings,
                titles@,
                *monitor,
                monitor_focused,
                exact,
                monitor.desktops@.len() as int,
            );
            let ws = settings.draw_settings.workspace_draw_mode;
            if pieces.len() == 0 {
                seq![]
            } else {
                styled(
                    ws,
                    join_with(pieces, styled(ws, settings.draw_settings.separator@, None)),
                    Some("bspc monitor -f '"@ + monitor.name@ + "'"@),
                )
            }
        }),
{
    let ws = &settings.draw_settings.workspace_draw_mode;
    let sep = ws.format(settings.draw_settings.separator.as_str(), None);
    let mut joined = String::new();
    let mut count: usize = 0;
    let mut k: usize = 0;
    while k < monitor.desktops.len()
        invariant
            exact >= 0,
            base as int == if exact > usize::MAX {
                usize::MAX as int
            } else {
                exact
            },
            sep@ == styled(*ws, settings.draw_settings.separator@, None),
            k <= monitor.desktops@.len(),
            count as int == monitor_pieces(
                *settings,
                titles@,
                *monitor,
                monitor_focused,
                exact,
                k as int,
            ).len(),
            count <= k,
            joined@ == join_with(
                monitor_pieces(*settings, titles@, *monitor, monitor_focused, exact, k as int),
                sep@,
            ),
        decreases monitor.desktops@.len() - k,
    {
        let desktop = &monitor.desktops[k];
        let index = base.saturating_add(k);
        let focused = monitor_focused && desktop.id == monitor.focused_desktop_id;
        let ghost prev = monitor_pieces(*settings, titles@, *monitor, monitor_focused, exact, k as int);
        proof {
            assert(subscript(index as int) == subscript(exact + k));
            assert(desktop_piece(*settings, titles@, *desktop, index as int, focused) == desktop_piece(
                *settings,
                titles@,
                *desktop,
                exact + k,
                focused,
            ));
        }
        match desktop_string(settings, titles, desktop, index, focused) {
            Some(piece) => {
                if count > 0 {
                    joined.append(sep.as_str());
                }
                joined.append(piece.as_str());
                proof {
                    let next = prev.push(piece@);
                    assert(next.drop_last() =~= prev);
                }
                count += 1;
            },
            None => {},
        }
        k += 1;
    }
    if count == 0 {
        return joined;
    }
    let link = String::from_str("bspc monitor -f '").concat(monitor.name.as_str()).concat("'");
    ws.format(joined.as_str(), Some(link.as_str()))
}

/// The status line for a snapshot. `titles` gives the known window titles by
/// node id.
pub fn render(state: &WmState, settings: &Settings, titles: &Vec<(i32, String)>) -> (r: String)
    ensures
        r@ == render_text(*state, *settings, titles@),
{
    let mut d: usize = 0;
    let mut result = String::new();
    let mut m: usize = 0;
    while m < state.monitors.len()
        invariant
            m <= state.monitors@.len(),
            desktops_before(state.monitors@, m as int) >= 0,
            d as int == if desktops_before(state.monitors@, m as int) > usize::MAX {
                usize::MAX as int
            } else {
                desktops_before(state.monitors@, m as int)
            },
            result@ == render_upto(*state, *settings, titles@, m as int),
        decreases state.monitors@.len() - m,
    {
        let monitor = &state.monitors[m];
        let ghost exact = desktops_before(state.monitors@, m as int);
        let skip = match &settings.monitor {
            Some(name) => !(monitor.name == *name),
            None => false,
        };
        if !skip {
            let text = monitor_string(
                settings,
                titles,
                monitor,
                state.focused_monitor_id == monitor.id,
                d,
                Ghost(exact),
            );
            result.append(text.as_str());
        }
        d = d.saturating_add(monitor.desktops.len());
        m += 1;
    }
    result
}

} // verus!
