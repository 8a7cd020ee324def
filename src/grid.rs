//! The bounded grid of cells: construction, lookup, neighbour counting,
//! one generation step and the text rendering.

use crate::cell::{draw_below, next_state, state_of_draw, Life};
use vstd::arithmetic::div_mod::{lemma_fundamental_div_mod, lemma_fundamental_div_mod_converse};
use vstd::prelude::*;
use vstd::set_lib::{lemma_int_range, lemma_map_size, set_int_range};

verus! {

/// A cell coordinate. Any pair is a valid lookup key; only those inside
/// the grid's rectangle hold a cell.
#[derive(Debug, Copy, Clone, PartialEq, Eq, Structural, Hash)]
pub struct Point {
    pub x: i32,
    pub y: i32,
}

impl Point {
    /// The coordinate displaced by `other`, component by component.
    pub fn add(self, other: Point) -> (r: Point)
        requires
            i32::MIN <= self.x + other.x <= i32::MAX,
            i32::MIN <= self.y + other.y <= i32::MAX,
        ensures
            r.x == self.x + other.x,
            r.y == self.y + other.y,
    {
        Point { x: self.x + other.x, y: self.y + other.y }
    }
}

/// A grid of `width * height` cells, one for each coordinate in
/// `[0, width) x [0, height)`, stored row by row.
#[derive(Debug)]
pub struct Game {
    width: u16,
    height: u16,
    cells: Vec<Life>,
}

/// Whether `p` lies in the rectangle `[0, w) x [0, h)`.
pub open spec fn in_rect(w: int, h: int, p: (int, int)) -> bool {
    0 <= p.0 < w && 0 <= p.1 < h
}

/// The coordinates of the rectangle `[0, w) x [0, h)`.
pub open spec fn rect(w: int, h: int) -> Set<(int, int)> {
    Set::new(|p: (int, int)| in_rect(w, h, p))
}

/// Whether the grid modelled by `m` holds a live cell at `p`; a
/// coordinate without a cell is not alive.
pub open spec fn is_alive(m: Map<(int, int), Life>, p: (int, int)) -> bool {
    m.contains_key(p) && m[p] == Life::Alive
}

/// One if the cell at `(x, y)` is alive, zero otherwise.
pub open spec fn alive_count(m: Map<(int, int), Life>, x: int, y: int) -> int {
    if is_alive(m, (x, y)) { 1 } else { 0 }
}

/// The number of live cells among the eight coordinates around `(x, y)`.
pub open spec fn live_neighbours(m: Map<(int, int), Life>, x: int, y: int) -> int {
    alive_count(m, x - 1, y) + alive_count(m, x - 1, y + 1) + alive_count(m, x, y + 1)
        + alive_count(m, x + 1, y + 1) + alive_count(m, x + 1, y) + alive_count(m, x + 1, y - 1)
        + alive_count(m, x, y - 1) + alive_count(m, x - 1, y - 1)
}

/// The next generation of `m`: the same coordinates, each cell advanced by
/// the rule from the neighbour counts of `m` itself.
pub open spec fn step(m: Map<(int, int), Life>) -> Map<(int, int), Life> {
    Map::new(
        |p: (int, int)| m.contains_key(p),
        |p: (int, int)| next_state(m[p], live_neighbours(m, p.0, p.1)),
    )
}

/// Whether every cell of `m` is dead.
pub open spec fn all_dead(m: Map<(int, int), Life>) -> bool {
    forall|p: (int, int)| #[trigger] m.contains_key(p) ==> m[p] == Life::Dead
}

/// The character that shows the coordinate `(x, y)` of `m`: `*` for a
/// live cell, a space for a dead one, `?` where `m` holds no cell.
pub open spec fn glyph(m: Map<(int, int), Life>, x: int, y: int) -> char {
    if m.contains_key((x, y)) {
        if m[(x, y)] == Life::Alive { '*' } else { ' ' }
    } else {
        '?'
    }
}

/// Row `y` of `m` as text: the glyphs of `x = 0 .. w`, left to right.
pub open spec fn row_text(m: Map<(int, int), Life>, w: nat, y: int) -> Seq<char> {
    Seq::new(w, |x: int| glyph(m, x, y))
}

/// Rows `k - 1` down to `0` of `m`, each `w` glyphs wide and ended by a
/// newline.
pub open spec fn render(m: Map<(int, int), Life>, w: nat, k: nat) -> Seq<char>
    decreases k,
{
    if k == 0 {
        Seq::empty()
    } else {
        row_text(m, w, k - 1) + seq!['\n'] + render(m, w, (k - 1) as nat)
    }
}

proof fn lemma_index_in_range(w: int, h: int, x: int, y: int)
    requires
        in_rect(w, h, (x, y)),
    ensures
        0 <= y * w + x < w * h,
{
    assert(0 <= y * w + x < w * h) by (nonlinear_arith)
        requires
            0 <= x < w,
            0 <= y < h,
    ;
}

/// The rectangle `[0, w) x [0, h)` is finite and holds `w * h`
/// coordinates.
pub proof fn lemma_rect_len(w: nat, h: nat)
    ensures
        rect(w as int, h as int).finite(),
        rect(w as int, h as int).len() == w * h,
{
    let r = rect(w as int, h as int);
    if w == 0 {
        assert(r =~= Set::empty());
        assert(w * h == 0) by (nonlinear_arith)
            requires
                w == 0,
        ;
    } else {
        let n = (w * h) as int;
        let idx = set_int_range(0, n);
        let f = |k: int| (k % (w as int), k / (w as int));
        lemma_int_range(0, n);
        assert forall|a: int, b: int| idx.contains(a) && idx.contains(b) && #[trigger] f(a) == #[trigger] f(
            b,
        ) implies a == b by {
            lemma_fundamental_div_mod(a, w as int);
            lemma_fundamental_div_mod(b, w as int);
        }
        assert forall|p: (int, int)| #[trigger] r.contains(p) implies idx.map(f).contains(p) by {
            let k = p.1 * w + p.0;
            lemma_index_in_range(w as int, h as int, p.0, p.1);
            lemma_fundamental_div_mod_converse(k, w as int, p.1, p.0);
            assert(idx.contains(k) && f(k) == p);
        }
        assert forall|p: (int, int)| #[trigger] idx.map(f).contains(p) implies r.contains(p) by {
            let k = choose|k: int| idx.contains(k) && f(k) == p;
            lemma_index_coords(w as int, h as int, k);
        }
        assert(idx.map(f) =~= r);
        lemma_map_size(idx, r, f);
    }
}

impl View for Game {
    type V = Map<(int, int), Life>;

    closed spec fn view(&self) -> Map<(int, int), Life> {
        Map::new(
            |p: (int, int)| in_rect(self.width as int, self.height as int, p),
            |p: (int, int)| self.cells@[p.1 * self.width + p.0],
        )
    }
}

impl Clone for Game {
    /// A copy holding the same cells as `self`.
    fn clone(&self) -> (r: Self)
        ensures
            self.wf() ==> r.wf(),
            r.spec_width() == self.spec_width(),
            r.spec_height() == self.spec_height(),
            r@ == self@,
    {
        let r = self.snapshot();
        assert(r@ =~= self@);
        r
    }
}

impl Game {
    /// The number of columns.
    pub closed spec fn spec_width(&self) -> int {
        self.width as int
    }

    /// The number of rows.
    pub closed spec fn spec_height(&self) -> int {
        self.height as int
    }

    /// The grid holds exactly one cell per coordinate of its rectangle.
    pub closed spec fn wf(&self) -> bool {
        self.cells@.len() == self.width * self.height
    }

    /// The coordinates of a grid are those of its rectangle.
    pub proof fn lemma_dom(&self)
        ensures
            self@.dom() == rect(self.spec_width(), self.spec_height()),
    {
        assert(self@.dom() =~= rect(self.spec_width(), self.spec_height()));
    }

    /// The number of columns.
    pub fn width(&self) -> (r: u16)
        ensures
            r == self.spec_width(),
    {
        self.width
    }

    /// The number of rows.
    pub fn height(&self) -> (r: u16)
        ensures
            r == self.spec_height(),
    {
        self.height
    }

    /// The state of the cell at `p`, or `None` where the grid has no cell.
    pub fn get(&self, p: &Point) -> (r: Option<Life>)
        requires
            self.wf(),
        ensures
            r == (if self@.contains_key((p.x as int, p.y as int)) {
                Some(self@[(p.x as int, p.y as int)])
            } else {
                None::<Life>
            }),
    {
        self.lookup(p.x as i64, p.y as i64)
    }

    /// Sets the cell at `p` to `v` and returns `true`; where the grid has
    /// no cell at `p` it is left as it is and `false` is returned.
    pub fn set(&mut self, p: &Point, v: Life) -> (r: bool)
        requires
            old(self).wf(),
        ensures
            final(self).wf(),
            final(self).spec_width() == old(self).spec_width(),
            final(self).spec_height() == old(self).spec_height(),
            r == old(self)@.contains_key((p.x as int, p.y as int)),
            final(self)@ == (if r {
                old(self)@.insert((p.x as int, p.y as int), v)
            } else {
                old(self)@
            }),
    {
        match self.index_of(p.x as i64, p.y as i64) {
            Some(i) => {
                self.cells[i] = v;
                proof {
                    let q = (p.x as int, p.y as int);
                    assert forall|o: (int, int)| #[trigger] self@.contains_key(o) && o != q implies self@[o]
                        == old(self)@[o] by {
                        lemma_coords_index(self, o);
                        lemma_coords_index(self, q);
                        lemma_index_in_range(self.width as int, self.height as int, o.0, o.1);
                    }
                    assert(self@ =~= old(self)@.insert(q, v));
                }
                true
            },
            None => {
                false
            },
        }
    }

    /// A copy of `self`, cell by cell.
    fn snapshot(&self) -> (r: Game)
        ensures
            r.width == self.width,
            r.height == self.height,
            r.cells@ == self.cells@,
    {
        let mut cells: Vec<Life> = Vec::new();
        let mut i: usize = 0;
        while i < self.cells.len()
            invariant
                i <= self.cells@.len(),
                cells@ == self.cells@.subrange(0, i as int),
            decreases self.cells@.len() - i,
        {
            cells.push(self.cells[i]);
            i = i + 1;
            assert(cells@ =~= self.cells@.subrange(0, i as int));
        }
        assert(cells@ =~= self.cells@);
        Game { width: self.width, height: self.height, cells }
    }

    /// The position in `cells` of the in-bounds coordinate `(x, y)`, or
    /// `None` for a coordinate outside the rectangle.
    fn index_of(&self, x: i64, y: i64) -> (r: Option<usize>)
        requires
            self.wf(),
        ensures
            r.is_some() <==> in_rect(self.width as int, self.height as int, (x as int, y as int)),
            r.is_some() ==> r.unwrap() == y * self.width + x && r.unwrap() < self.cells@.len(),
    {
        if 0 <= x && x < self.width as i64 && 0 <= y && y < self.height as i64 {
            let xu: usize = x as usize;
            let yu: usize = y as usize;
            let wu: usize = self.width as usize;
            assert((self.width as int) * (self.height as int) <= 0xffff * 0xffff) by (nonlinear_arith)
                requires
                    self.width <= 0xffff,
                    self.height <= 0xffff,
            ;
            proof {
                lemma_index_in_range(wu as int, self.height as int, xu as int, yu as int);
            }
            Some(yu * wu + xu)
        } else {
            None
        }
    }

    /// The state of the cell at `(x, y)`, or `None` outside the grid.
    fn lookup(&self, x: i64, y: i64) -> (r: Option<Life>)
        requires
            self.wf(),
        ensures
            r == (if self@.contains_key((x as int, y as int)) {
                Some(self@[(x as int, y as int)])
            } else {
                None::<Life>
            }),
    {
        match self.index_of(x, y) {
            Some(i) => Some(self.cells[i]),
            None => None,
        }
    }
}

/// A grid of `width * height` cells, all dead.
pub fn new_game(width: u16, height: u16) -> (r: Game)
    ensures
        r.wf(),
        r.spec_width() == width,
        r.spec_height() == height,
        r@.dom() == rect(width as int, height as int),
        r@.dom().finite(),
        r@.dom().len() == width * height,
        all_dead(r@),
{
    assert((width as int) * (height as int) <= 0xffff * 0xffff) by (nonlinear_arith)
        requires
            width <= 0xffff,
            height <= 0xffff,
    ;
    let n: usize = (width as usize) * (height as usize);
    let mut cells: Vec<Life> = Vec::new();
    let mut i: usize = 0;
    while i < n
        invariant
            n == width * height,
            i <= n,
            cells@.len() == i,
            forall|k: int| 0 <= k < i ==> cells@[k] == Life::Dead,
        decreases n - i,
    {
        cells.push(Life::Dead);
        i = i + 1;
    }
    let r = Game { width, height, cells };
    assert(r@.dom() =~= rect(width as int, height as int));
    proof {
        lemma_rect_len(width as nat, height as nat);
    }
    assert forall|p: (int, int)| #[trigger] r@.contains_key(p) implies r@[p] == Life::Dead by {
        lemma_index_in_range(width as int, height as int, p.0, p.1);
    }
    r
}

/// Relies on String::push: appends `c` to the end of `s`.
#[verifier::external_body]
fn push_char(s: &mut String, c: char)
    ensures
        final(s)@ == old(s)@.push(c),
{
    s.push(c)
}

/// One if `g` holds a live cell at `(x, y)`, zero otherwise.
fn alive_at(g: &Game, x: i64, y: i64) -> (r: usize)
    requires
        g.wf(),
    ensures
        r == alive_count(g@, x as int, y as int),
{
    match g.lookup(x, y) {
        Some(Life::Alive) => 1,
        _ => 0,
    }
}

/// How many of the eight cells around `target` are alive. A coordinate
/// outside the grid has no cell and is never counted: the grid does not
/// wrap around its edges.
pub fn neighbours(g: &Game, target: &Point) -> (r: usize)
    requires
        g.wf(),
    ensures
        r == live_neighbours(g@, target.x as int, target.y as int),
        r <= 8,
{
    let x = target.x as i64;
    let y = target.y as i64;
    alive_at(g, x - 1, y) + alive_at(g, x - 1, y + 1) + alive_at(g, x, y + 1)
        + alive_at(g, x + 1, y + 1) + alive_at(g, x + 1, y) + alive_at(g, x + 1, y - 1)
        + alive_at(g, x, y - 1) + alive_at(g, x - 1, y - 1)
}

/// The coordinate of the cell stored at position `k` of a grid `w` wide.
proof fn lemma_index_coords(w: int, h: int, k: int)
    requires
        0 < w,
        0 <= h,
        0 <= k < w * h,
    ensures
        in_rect(w, h, (k % w, k / w)),
{
    lemma_fundamental_div_mod(k, w);
    assert(k / w < h) by (nonlinear_arith)
        requires
            0 <= k < w * h,
            0 < w,
            k == w * (k / w) + k % w,
            0 <= k % w < w,
    ;
    assert(0 <= k / w) by (nonlinear_arith)
        requires
            0 <= k,
            0 < w,
            k == w * (k / w) + k % w,
            0 <= k % w < w,
    ;
}

/// The cell of `g` at the in-bounds coordinate `p` is the one stored at
/// `p.1 * width + p.0`.
proof fn lemma_coords_index(g: &Game, p: (int, int))
    requires
        g.wf(),
        g@.contains_key(p),
    ensures
        0 <= p.1 * g.spec_width() + p.0 < g.cells@.len(),
        (p.1 * g.spec_width() + p.0) % g.spec_width() == p.0,
        (p.1 * g.spec_width() + p.0) / g.spec_width() == p.1,
{
    lemma_index_in_range(g.spec_width(), g.spec_height(), p.0, p.1);
    lemma_fundamental_div_mod_converse(p.1 * g.spec_width() + p.0, g.spec_width(), p.1, p.0);
}

/// Advances `game` by one generation and returns the grid as it was
/// before. Every neighbour count is taken from that earlier grid, so no
/// cell sees a value already advanced in the same step.
pub fn advance(game: &mut Game) -> (r: Game)
    requires
        old(game).wf(),
    ensures
        final(game).wf(),
        final(game).spec_width() == old(game).spec_width(),
        final(game).spec_height() == old(game).spec_height(),
        final(game)@ == step(old(game)@),
        r.wf(),
        r.spec_width() == old(game).spec_width(),
        r.spec_height() == old(game).spec_height(),
        r@ == old(game)@,
{
    let tmp = game.snapshot();
    let n: usize = game.cells.len();
    let w: u16 = game.width;
    let mut i: usize = 0;
    while i < n
        invariant
            tmp.wf(),
            w == tmp.width,
            game.width == tmp.width,
            game.height == tmp.height,
            n == tmp.cells@.len(),
            game.cells@.len() == n,
            i <= n,
            forall|k: int|
                0 <= k < i ==> #[trigger] game.cells@[k] == next_state(
                    tmp.cells@[k],
                    live_neighbours(tmp@, k % (w as int), k / (w as int)),
                ),
            forall|k: int| i <= k < n ==> #[trigger] game.cells@[k] == tmp.cells@[k],
        decreases n - i,
    {
        proof {
            lemma_index_coords(w as int, tmp.height as int, i as int);
        }
        let p = Point { x: (i % (w as usize)) as i32, y: (i / (w as usize)) as i32 };
        let c = neighbours(&tmp, &p);
        let v = game.cells[i].advance(c);
        game.cells[i] = v;
        i = i + 1;
    }
    proof {
        assert(game@.dom() =~= step(tmp@).dom());
        assert forall|p: (int, int)| #[trigger] game@.contains_key(p) implies game@[p] == step(
            tmp@,
        )[p] by {
            lemma_coords_index(&tmp, p);
        }
        assert(game@ =~= step(tmp@));
    }
    tmp
}

/// The grid with coordinates `dom` in which the cell at `p` holds the
/// state of draw number `p.1 * w + p.0`.
pub open spec fn filled(dom: Set<(int, int)>, w: int, draws: Seq<u32>) -> Map<(int, int), Life> {
    Map::new(|p: (int, int)| dom.contains(p), |p: (int, int)| state_of_draw(draws[p.1 * w + p.0]))
}

/// Overwrites every cell of `game` with the state of its own draw: the
/// cell at `(x, y)` takes draw number `y * width + x`. The grid keeps its
/// coordinates, and the old states play no part in the new ones.
pub fn fill_from_draws(game: &mut Game, draws: &Vec<u32>)
    requires
        old(game).wf(),
        draws@.len() == old(game).spec_width() * old(game).spec_height(),
    ensures
        final(game).wf(),
        final(game).spec_width() == old(game).spec_width(),
        final(game).spec_height() == old(game).spec_height(),
        final(game)@ == filled(old(game)@.dom(), old(game).spec_width(), draws@),
{
    let n: usize = game.cells.len();
    let mut i: usize = 0;
    while i < n
        invariant
            game.width == old(game).width,
            game.height == old(game).height,
            game.cells@.len() == n,
            n == old(game).cells@.len(),
            draws@.len() == n,
            i <= n,
            forall|k: int| 0 <= k < i ==> #[trigger] game.cells@[k] == state_of_draw(draws@[k]),
        decreases n - i,
    {
        game.cells[i] = Life::from_draw(draws[i]);
        i = i + 1;
    }
    proof {
        let f = filled(old(game)@.dom(), old(game).spec_width(), draws@);
        assert(game@.dom() =~= f.dom());
        assert forall|p: (int, int)| #[trigger] game@.contains_key(p) implies game@[p] == f[p] by {
            lemma_coords_index(game, p);
        }
        assert(game@ =~= f);
    }
}

/// Overwrites every cell of `game` with a state drawn at random, alive or
/// dead with equal chance and independently of the others: one draw from
/// `{0, 1}` per cell, handed to `fill_from_draws`. The grid keeps its
/// coordinates.
pub fn randomize(game: &mut Game)
    requires
        old(game).wf(),
    ensures
        final(game).wf(),
        final(game).spec_width() == old(game).spec_width(),
        final(game).spec_height() == old(game).spec_height(),
        exists|draws: Seq<u32>|
            draws.len() == old(game).spec_width() * old(game).spec_height() && (forall|k: int|
                0 <= k < draws.len() ==> #[trigger] draws[k] < 2) && final(game)@ == filled(
                old(game)@.dom(),
                old(game).spec_width(),
                draws,
            ),
{
    let n: usize = game.cells.len();
    let mut draws: Vec<u32> = Vec::new();
    let mut i: usize = 0;
    while i < n
        invariant
            n == game.cells@.len(),
            draws@.len() == i,
            i <= n,
            forall|k: int| 0 <= k < i ==> #[trigger] draws@[k] < 2,
        decreases n - i,
    {
        draws.push(draw_below(2));
        i = i + 1;
    }
    fill_from_draws(game, &draws);
    assert(draws@.len() == old(game).spec_width() * old(game).spec_height() && (forall|k: int|
        0 <= k < draws@.len() ==> #[trigger] draws@[k] < 2) && game@ == filled(
        old(game)@.dom(),
        old(game).spec_width(),
        draws@,
    ));
}

/// The glyph of the coordinate `(x, y)` of `g`.
fn glyph_at(g: &Game, x: i64, y: i64) -> (r: char)
    requires
        g.wf(),
    ensures
        r == glyph(g@, x as int, y as int),
{
    match g.lookup(x, y) {
        Some(Life::Alive) => '*',
        Some(Life::Dead) => ' ',
        None => '?',
    }
}

/// The grid as text: one line per row from `y = height - 1` down to
/// `y = 0`, each holding the glyphs of `x = 0 .. width` and ended by a
/// newline.
pub fn show(game: &Game, width: u16, height: u16) -> (r: String)
    requires
        game.wf(),
    ensures
        r@ == render(game@, width as nat, height as nat),
{
    let mut res = String::new();
    let mut y: u16 = height;
    while y > 0
        invariant
            y <= height,
            game.wf(),
            render(game@, width as nat, height as nat) == res@ + render(
                game@,
                width as nat,
                y as nat,
            ),
        decreases y,
    {
        y = y - 1;
        let ghost before = res@;
        let mut x: u16 = 0;
        while x < width
            invariant
                x <= width,
                game.wf(),
                res@ == before + row_text(game@, width as nat, y as int).subrange(0, x as int),
            decreases width - x,
        {
            let c = glyph_at(game, x as i64, y as i64);
            push_char(&mut res, c);
            x = x + 1;
            assert(res@ =~= before + row_text(game@, width as nat, y as int).subrange(0, x as int));
        }
        push_char(&mut res, '\n');
        assert(render(game@, width as nat, (y + 1) as nat) =~= row_text(game@, width as nat, y as int)
            + seq!['\n'] + render(game@, width as nat, y as nat));
        assert(res@ =~= before + row_text(game@, width as nat, y as int) + seq!['\n']);
    }
    res
}

} // verus!
