//! Properties of the automaton that hold for every grid.

use crate::cell::Life;
use crate::grid::{
    all_dead, glyph, in_rect, is_alive, live_neighbours, render, row_text, step, Game,
};
use vstd::prelude::*;

verus! {

/// One if `(x, y)` lies in the rectangle `[0, w) x [0, h)`, zero otherwise.
pub open spec fn in_rect_count(w: int, h: int, x: int, y: int) -> int {
    if in_rect(w, h, (x, y)) { 1 } else { 0 }
}

/// How many of the eight coordinates around `(x, y)` lie in the rectangle
/// `[0, w) x [0, h)`.
pub open spec fn in_bounds_neighbours(w: int, h: int, x: int, y: int) -> int {
    in_rect_count(w, h, x - 1, y) + in_rect_count(w, h, x - 1, y + 1) + in_rect_count(w, h, x, y + 1)
        + in_rect_count(w, h, x + 1, y + 1) + in_rect_count(w, h, x + 1, y) + in_rect_count(
        w,
        h,
        x + 1,
        y - 1,
    ) + in_rect_count(w, h, x, y - 1) + in_rect_count(w, h, x - 1, y - 1)
}

/// The grid `m` after `n` generations.
pub open spec fn steps(m: Map<(int, int), Life>, n: nat) -> Map<(int, int), Life>
    decreases n,
{
    if n == 0 {
        m
    } else {
        step(steps(m, (n - 1) as nat))
    }
}

/// The grid does not wrap: only neighbours inside the rectangle are ever
/// counted as alive, and a cell on the edge of the rectangle has fewer
/// than eight neighbours inside it.
pub proof fn lemma_no_wrap(g: Game, x: int, y: int)
    requires
        g.wf(),
    ensures
        live_neighbours(g@, x, y) <= in_bounds_neighbours(
            g.spec_width(),
            g.spec_height(),
            x,
            y,
        ),
        in_rect(g.spec_width(), g.spec_height(), (x, y)) && (x == 0 || y == 0 || x == g.spec_width()
            - 1 || y == g.spec_height() - 1) ==> in_bounds_neighbours(
            g.spec_width(),
            g.spec_height(),
            x,
            y,
        ) < 8,
{
    g.lemma_dom();
}

/// A grid in which every cell is dead stays so, with the same coordinates,
/// through any number of generations.
pub proof fn lemma_dead_stays_dead(m: Map<(int, int), Life>, n: nat)
    requires
        all_dead(m),
    ensures
        all_dead(steps(m, n)),
        steps(m, n).dom() == m.dom(),
    decreases n,
{
    if n > 0 {
        let prev = steps(m, (n - 1) as nat);
        lemma_dead_stays_dead(m, (n - 1) as nat);
        assert forall|p: (int, int)| #[trigger] step(prev).contains_key(p) implies step(prev)[p]
            == Life::Dead by {
            assert(live_neighbours(prev, p.0, p.1) == 0);
        }
        assert(step(prev).dom() =~= prev.dom());
    }
}

/// The text of a grid is `h` lines of `w` glyphs, each followed by a
/// newline; line `i` shows row `y = h - 1 - i`, from `x = 0` on the left.
pub proof fn lemma_render_layout(m: Map<(int, int), Life>, w: nat, h: nat)
    ensures
        render(m, w, h).len() == h * (w + 1),
        forall|i: int, x: int|
            0 <= i < h && 0 <= x < w ==> #[trigger] render(m, w, h)[i * (w + 1) + x] == glyph(
                m,
                x,
                h - 1 - i,
            ),
        forall|i: int| 0 <= i < h ==> #[trigger] render(m, w, h)[i * (w + 1) + w] == '\n',
    decreases h,
{
    if h > 0 {
        let k = (h - 1) as nat;
        lemma_render_layout(m, w, k);
        let head = row_text(m, w, k as int) + seq!['\n'];
        assert(render(m, w, h) == head + render(m, w, k));
        assert(h * (w + 1) == (w + 1) + k * (w + 1)) by (nonlinear_arith)
            requires
                k == h - 1,
        ;
        assert forall|i: int, x: int| 0 <= i < h && 0 <= x <= w implies #[trigger] render(m, w, h)[i
            * (w + 1) + x] == (if x < w {
            glyph(m, x, h - 1 - i)
        } else {
            '\n'
        }) by {
            let j = i * (w + 1) + x;
            if i == 0 {
                assert(j == x) by (nonlinear_arith)
                    requires
                        i == 0,
                        j == i * (w + 1) + x,
                ;
            } else {
                let j0 = (i - 1) * (w + 1) + x;
                assert(j == (w + 1) + j0 && 0 <= j0 < k * (w + 1)) by (nonlinear_arith)
                    requires
                        0 < i < h,
                        k == h - 1,
                        0 <= x <= w,
                        j == i * (w + 1) + x,
                        j0 == (i - 1) * (w + 1) + x,
                ;
                assert(render(m, w, h)[j] == render(m, w, k)[j0]);
                if x < w {
                    assert(render(m, w, k)[(i - 1) * (w + 1) + x] == glyph(m, x, k - 1 - (i - 1)));
                } else {
                    assert(render(m, w, k)[(i - 1) * (w + 1) + w] == '\n');
                }
            }
        }
        assert forall|i: int, x: int| 0 <= i < h && 0 <= x < w implies #[trigger] render(m, w, h)[i
            * (w + 1) + x] == glyph(m, x, h - 1 - i) by {
            assert(0 <= x <= w);
        }
        assert forall|i: int| 0 <= i < h implies #[trigger] render(m, w, h)[i * (w + 1) + w]
            == '\n' by {
            assert(0 <= w <= w);
        }
    }
}

/// Where `m` holds a cell at every coordinate of `[0, w) x [0, h)`, its
/// text holds only live marks, spaces and newlines: no missing-cell mark.
pub proof fn lemma_render_no_sentinel(m: Map<(int, int), Life>, w: nat, h: nat)
    requires
        forall|x: int, y: int| 0 <= x < w && 0 <= y < h ==> #[trigger] m.contains_key((x, y)),
    ensures
        forall|i: int|
            0 <= i < render(m, w, h).len() ==> {
                let c = #[trigger] render(m, w, h)[i];
                c == '*' || c == ' ' || c == '\n'
            },
    decreases h,
{
    if h > 0 {
        let k = (h - 1) as nat;
        lemma_render_no_sentinel(m, w, k);
        let head = row_text(m, w, k as int) + seq!['\n'];
        assert(render(m, w, h) == head + render(m, w, k));
        assert forall|i: int| 0 <= i < render(m, w, h).len() implies {
            let c = #[trigger] render(m, w, h)[i];
            c == '*' || c == ' ' || c == '\n'
        } by {
            if i < w {
                assert(m.contains_key((i, k as int)));
            } else if i > w {
                assert(render(m, w, h)[i] == render(m, w, k)[i - head.len()]);
            }
        }
    }
}

/// The number of live marks `*` in `s`.
pub open spec fn star_count(s: Seq<char>) -> nat
    decreases s.len(),
{
    if s.len() == 0 {
        0
    } else {
        star_count(s.drop_last()) + if s.last() == '*' { 1nat } else { 0nat }
    }
}

/// The number of live cells of `m` at `(x, y)` for `x` in `[0, n)`.
pub open spec fn alive_in_row(m: Map<(int, int), Life>, n: nat, y: int) -> nat
    decreases n,
{
    if n == 0 {
        0
    } else {
        alive_in_row(m, (n - 1) as nat, y) + if is_alive(m, ((n - 1) as int, y)) { 1nat } else { 0nat }
    }
}

/// The number of live cells of `m` in the rectangle `[0, w) x [0, h)`.
pub open spec fn alive_in_rect(m: Map<(int, int), Life>, w: nat, h: nat) -> nat
    decreases h,
{
    if h == 0 {
        0
    } else {
        alive_in_row(m, w, h - 1) + alive_in_rect(m, w, (h - 1) as nat)
    }
}

proof fn lemma_star_count_concat(a: Seq<char>, b: Seq<char>)
    ensures
        star_count(a + b) == star_count(a) + star_count(b),
    decreases b.len(),
{
    if b.len() > 0 {
        lemma_star_count_concat(a, b.drop_last());
        assert((a + b).drop_last() =~= a + b.drop_last());
        assert((a + b).last() == b.last());
    } else {
        assert(a + b =~= a);
    }
}

proof fn lemma_row_stars(m: Map<(int, int), Life>, w: nat, y: int)
    ensures
        star_count(row_text(m, w, y)) == alive_in_row(m, w, y),
    decreases w,
{
    if w > 0 {
        let k = (w - 1) as nat;
        lemma_row_stars(m, k, y);
        assert(row_text(m, w, y).drop_last() =~= row_text(m, k, y));
    }
}

/// The text of a grid shows one live mark `*` per live cell of the
/// rectangle it covers, and no other.
pub proof fn lemma_render_stars(m: Map<(int, int), Life>, w: nat, h: nat)
    ensures
        star_count(render(m, w, h)) == alive_in_rect(m, w, h),
    decreases h,
{
    if h > 0 {
        let k = (h - 1) as nat;
        lemma_render_stars(m, w, k);
        lemma_row_stars(m, w, k as int);
        let nl = seq!['\n'];
        assert(star_count(nl) == 0) by {
            assert(nl.drop_last() =~= Seq::<char>::empty());
            assert(nl.last() == '\n');
            assert(star_count(nl.drop_last()) == 0);
        }
        lemma_star_count_concat(row_text(m, w, k as int), nl);
        lemma_star_count_concat(row_text(m, w, k as int) + nl, render(m, w, k));
    }
}

} // verus!
