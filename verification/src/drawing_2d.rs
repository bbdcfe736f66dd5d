//! Debug rasterization helpers: each computes the pixel positions of a
//! figure, in a fixed order, for a caller to paint into an image buffer.

use vstd::prelude::*;
use crate::coordinates::Coordinates2D;
use crate::fixed::{
    iabs, isqrt_spec, lemma_abs_mul, lemma_isqrt_le, lemma_tdiv_mag, tdiv,
};
use vstd::arithmetic::div_mod::{
    lemma_fundamental_div_mod, lemma_fundamental_div_mod_converse, lemma_mod_bound,
};

verus! {

/// The pixels of a filled rectangle, column by column.
pub open spec fn rect_px_spec(dimensions: Coordinates2D, position: Coordinates2D, j: int) -> (
    int,
    int,
) {
    (position.x + j / (dimensions.y as int), position.y + j % (dimensions.y as int))
}

pub fn draw_rectangle(dimensions: Coordinates2D, position: Coordinates2D) -> (res: Vec<
    Coordinates2D,
>)
    requires
        position.x + dimensions.x <= u32::MAX,
        position.y + dimensions.y <= u32::MAX,
        (dimensions.x as int) * (dimensions.y as int) <= 0x10000000,
    ensures
        res@.len() == (dimensions.x as int) * (dimensions.y as int),
        forall|j: int|
            0 <= j < res@.len() ==> ((#[trigger] res@[j]).x as int, res@[j].y as int)
                == rect_px_spec(dimensions, position, j),
{
    let mut res: Vec<Coordinates2D> = Vec::new();
    let mut dx: u32 = 0;
    while dx < dimensions.x
        invariant
            dx <= dimensions.x,
            position.x + dimensions.x <= u32::MAX,
            position.y + dimensions.y <= u32::MAX,
            (dimensions.x as int) * (dimensions.y as int) <= 0x10000000,
            res@.len() == (dx as int) * (dimensions.y as int),
            forall|j: int|
                0 <= j < res@.len() ==> ((#[trigger] res@[j]).x as int, res@[j].y as int)
                    == rect_px_spec(dimensions, position, j),
        decreases dimensions.x - dx,
    {
        let mut dy: u32 = 0;
        proof {
            assert((dx as int) * (dimensions.y as int) <= (dimensions.x as int) * (
            dimensions.y as int)) by (nonlinear_arith)
                requires
                    0 <= dx as int <= dimensions.x as int,
                    0 <= dimensions.y as int,
            ;
            assert((dx as int + 1) * (dimensions.y as int) <= (dimensions.x as int) * (
            dimensions.y as int)) by (nonlinear_arith)
                requires
                    dx as int + 1 <= dimensions.x as int,
                    0 <= dimensions.y as int,
            ;
            assert((dx as int + 1) * (dimensions.y as int) == (dx as int) * (dimensions.y as int)
                + dimensions.y as int) by (nonlinear_arith);
        }
        while dy < dimensions.y
            invariant
                dy <= dimensions.y,
                dx < dimensions.x,
                position.x + dimensions.x <= u32::MAX,
                position.y + dimensions.y <= u32::MAX,
                (dx as int) * (dimensions.y as int) + dimensions.y as int <= 0x10000000,
                res@.len() == (dx as int) * (dimensions.y as int) + dy as int,
                forall|j: int|
                    0 <= j < res@.len() ==> ((#[trigger] res@[j]).x as int, res@[j].y as int)
                        == rect_px_spec(dimensions, position, j),
            decreases dimensions.y - dy,
        {
            proof {
                lemma_fundamental_div_mod_converse(
                    (dx as int) * (dimensions.y as int) + dy as int,
                    dimensions.y as int,
                    dx as int,
                    dy as int,
                );
            }
            res.push(Coordinates2D { x: position.x + dx, y: position.y + dy });
            dy = dy + 1;
        }
        dx = dx + 1;
    }
    res
}

/// The lateral offset of the circle outline at axial offset `i`.
pub open spec fn circle_off_spec(r: int, i: int) -> int {
    isqrt_spec(r * r - i * i)
}

/// The pixels of a circle outline: eight per step, mirrored across both
/// axes and across the diagonal.
pub open spec fn circle_px_spec(r: int, position: Coordinates2D, j: int) -> (int, int) {
    let i = j / 8;
    let t = j % 8;
    let d = circle_off_spec(r, i);
    let x = position.x as int;
    let y = position.y as int;
    if t == 0 {
        (x + i, y + d)
    } else if t == 1 {
        (x + i, y - d)
    } else if t == 2 {
        (x - i, y + d)
    } else if t == 3 {
        (x - i, y - d)
    } else if t == 4 {
        (x + d, y + i)
    } else if t == 5 {
        (x + d, y - i)
    } else if t == 6 {
        (x - d, y + i)
    } else {
        (x - d, y - i)
    }
}

/// The number of steps drawn: the outline stays continuous up to the
/// diagonal, at sqrt(3)/2 of the radius.
pub open spec fn circle_range_spec(r: int) -> int {
    isqrt_spec((3 * (r * r)) / 4)
}

pub fn draw_circle(r: u32, position: Coordinates2D) -> (res: Vec<Coordinates2D>)
    requires
        r <= position.x,
        r <= position.y,
        position.x + r <= u32::MAX,
        position.y + r <= u32::MAX,
    ensures
        res@.len() == 8 * (circle_range_spec(r as int) + 1),
        forall|j: int|
            0 <= j < res@.len() ==> ((#[trigger] res@[j]).x as int, res@[j].y as int)
                == circle_px_spec(r as int, position, j),
{
    proof {
        assert((r as int) * (r as int) <= 0xfffffffe00000001) by (nonlinear_arith)
            requires 0 <= r as int <= 0xffffffff,
        ;
    }
    let rr: u64 = (r as u64) * (r as u64);
    proof {
        vstd::arithmetic::div_mod::lemma_div_is_ordered(3 * (rr as int), 4 * (rr as int), 4);
        vstd::arithmetic::div_mod::lemma_div_multiples_vanish(rr as int, 4);
        assert((3 * (rr as int)) / 4 <= rr as int);
        lemma_isqrt_le((3 * (rr as int)) / 4, r as int);
    }
    let range: u64 = crate::fixed::isqrt64((3 * (rr as u128)) / 4);
    let range32: u32 = range as u32;
    let mut res: Vec<Coordinates2D> = Vec::new();
    let mut i: u32 = 0;
    while i <= range32
        invariant
            rr as int == (r as int) * (r as int),
            range32 as int == circle_range_spec(r as int),
            range32 <= r,
            i <= range32 + 1,
            r <= position.x,
            r <= position.y,
            position.x + r <= u32::MAX,
            position.y + r <= u32::MAX,
            res@.len() == 8 * (i as int),
            forall|j: int|
                0 <= j < res@.len() ==> ((#[trigger] res@[j]).x as int, res@[j].y as int)
                    == circle_px_spec(r as int, position, j),
        decreases range32 + 1 - i,
    {
        proof {
            assert((i as int) * (i as int) <= (r as int) * (r as int)) by (nonlinear_arith)
                requires 0 <= i as int <= r as int,
            ;
        }
        let ii: u64 = (i as u64) * (i as u64);
        proof {
            assert(rr as int - ii as int <= (r as int) * (r as int));
            lemma_isqrt_le(rr as int - ii as int, r as int);
        }
        let d64: u64 = crate::fixed::isqrt64((rr - ii) as u128);
        let d: u32 = d64 as u32;
        proof {
            crate::fixed::lemma_isqrt(rr as int - ii as int);
            assert(d as int == circle_off_spec(r as int, i as int));
            lemma_fundamental_div_mod_converse(8 * (i as int) + 0, 8, i as int, 0);
            lemma_fundamental_div_mod_converse(8 * (i as int) + 1, 8, i as int, 1);
            lemma_fundamental_div_mod_converse(8 * (i as int) + 2, 8, i as int, 2);
            lemma_fundamental_div_mod_converse(8 * (i as int) + 3, 8, i as int, 3);
            lemma_fundamental_div_mod_converse(8 * (i as int) + 4, 8, i as int, 4);
            lemma_fundamental_div_mod_converse(8 * (i as int) + 5, 8, i as int, 5);
            lemma_fundamental_div_mod_converse(8 * (i as int) + 6, 8, i as int, 6);
            lemma_fundamental_div_mod_converse(8 * (i as int) + 7, 8, i as int, 7);
        }
        res.push(Coordinates2D { x: position.x + i, y: position.y + d });
        res.push(Coordinates2D { x: position.x + i, y: position.y - d });
        res.push(Coordinates2D { x: position.x - i, y: position.y + d });
        res.push(Coordinates2D { x: position.x - i, y: position.y - d });
        res.push(Coordinates2D { x: position.x + d, y: position.y + i });
        res.push(Coordinates2D { x: position.x + d, y: position.y - i });
        res.push(Coordinates2D { x: position.x - d, y: position.y + i });
        res.push(Coordinates2D { x: position.x - d, y: position.y - i });
        i = i + 1;
    }
    res
}

pub open spec fn isign(a: int) -> int {
    if a > 0 { 1 } else if a < 0 { -1 } else { 0 }
}

/// The number of pixels a line rasterization emits: one per step along the
/// dominant axis.
pub open spec fn line_len_spec(px: int, py: int) -> int {
    if iabs(px) > iabs(py) { iabs(px) + 1 } else { iabs(py) + 1 }
}

/// The j-th pixel of a line: step along the dominant axis, the other
/// coordinate following the exact slope, truncated toward zero.
pub open spec fn line_px_spec(p1: Coordinates2D, px: int, py: int, j: int) -> (int, int) {
    if iabs(px) > iabs(py) {
        let dx = j * isign(px);
        let dy = tdiv(dx * py, px);
        (p1.x + dx, p1.y + dy)
    } else {
        let dy = j * isign(py);
        let dx = if py == 0 { 0 } else { tdiv(dy * px, py) };
        (p1.x + dx, p1.y + dy)
    }
}

/// The pixels of a line between two points, stepping along the dominant
/// axis from the first point toward the second.
pub fn draw_line(p1: Coordinates2D, p2: Coordinates2D) -> (res: Vec<Coordinates2D>)
    requires
        p1.x <= 0x40000000,
        p1.y <= 0x40000000,
        p2.x <= 0x40000000,
        p2.y <= 0x40000000,
    ensures
        res@.len() == line_len_spec(p2.x - p1.x, p2.y - p1.y),
        forall|j: int|
            0 <= j < res@.len() ==> ((#[trigger] res@[j]).x as int, res@[j].y as int)
                == line_px_spec(p1, p2.x - p1.x, p2.y - p1.y, j),
{
    let pdistx: i64 = p2.x as i64 - p1.x as i64;
    let pdisty: i64 = p2.y as i64 - p1.y as i64;
    let ax: i64 = if pdistx < 0 { -pdistx } else { pdistx };
    let ay: i64 = if pdisty < 0 { -pdisty } else { pdisty };
    let mut res: Vec<Coordinates2D> = Vec::new();
    if ax > ay {
        let sgn: i64 = if pdistx > 0 { 1 } else { -1 };
        let mut a: i64 = 0;
        while a <= ax
            invariant
                pdistx == p2.x - p1.x,
                pdisty == p2.y - p1.y,
                ax == iabs(pdistx as int),
                ay == iabs(pdisty as int),
                ax > ay,
                sgn == isign(pdistx as int),
                p1.x <= 0x40000000,
                p1.y <= 0x40000000,
                p2.x <= 0x40000000,
                p2.y <= 0x40000000,
                0 <= a <= ax + 1,
                res@.len() == a,
                forall|j: int|
                    0 <= j < res@.len() ==> ((#[trigger] res@[j]).x as int, res@[j].y as int)
                        == line_px_spec(p1, pdistx as int, pdisty as int, j),
            decreases ax + 1 - a,
        {
            let dx: i64 = a * sgn;
            proof {
                lemma_abs_mul(a as int, sgn as int);
                assert(iabs(dx as int) == a);
                lemma_tdiv_mag((dx as int) * (pdisty as int), pdistx as int);
                lemma_abs_mul(dx as int, pdisty as int);
                assert(iabs(dx as int) * iabs(pdisty as int) <= iabs(pdistx as int) * iabs(
                pdisty as int)) by (nonlinear_arith)
                    requires
                        0 <= iabs(dx as int) <= iabs(pdistx as int),
                        0 <= iabs(pdisty as int),
                ;
                vstd::arithmetic::div_mod::lemma_div_is_ordered(
                    iabs((dx as int) * (pdisty as int)),
                    iabs(pdistx as int) * iabs(pdisty as int),
                    iabs(pdistx as int),
                );
                assert(iabs(pdistx as int) * iabs(pdisty as int) == iabs(pdisty as int) * iabs(
                pdistx as int)) by (nonlinear_arith);
                vstd::arithmetic::div_mod::lemma_div_multiples_vanish(
                    iabs(pdisty as int),
                    iabs(pdistx as int),
                );
                // the slope term never leaves the segment's vertical extent,
                // and it leans toward the second endpoint
                if pdisty >= 0 {
                    assert((dx as int) * (pdisty as int) * (pdistx as int) >= 0)
                        by (nonlinear_arith)
                        requires
                            iabs(dx as int) == a,
                            0 <= a,
                            sgn == isign(pdistx as int),
                            dx == a * sgn,
                            pdistx != 0,
                            pdisty >= 0,
                    ;
                } else {
                    assert((dx as int) * (pdisty as int) * (pdistx as int) <= 0)
                        by (nonlinear_arith)
                        requires
                            iabs(dx as int) == a,
                            0 <= a,
                            sgn == isign(pdistx as int),
                            dx == a * sgn,
                            pdistx != 0,
                            pdisty < 0,
                    ;
                }
            }
            proof {
                assert(iabs(pdistx as int) * iabs(pdisty as int) <= 0x4000000000000000)
                    by (nonlinear_arith)
                    requires
                        0 <= iabs(pdistx as int) <= 0x80000000,
                        0 <= iabs(pdisty as int) <= 0x80000000,
                ;
            }
            let dy: i64 = crate::fixed::idiv_signed(dx * pdisty, pdistx);
            proof {
                assert(0 <= p1.x + dx <= 0x80000000 && 0 <= p1.y + dy <= 0x80000000) by {
                    if pdistx > 0 {
                        assert(dx == a);
                    } else {
                        assert(dx == -a);
                    }
                    lemma_tdiv_sgn_product(dx as int, pdisty as int, pdistx as int);
                }
            }
            res.push(
                Coordinates2D { x: (p1.x as i64 + dx) as u32, y: (p1.y as i64 + dy) as u32 },
            );
            a = a + 1;
        }
    } else {
        let sgn: i64 = if pdisty > 0 { 1 } else { -1 };
        let mut a: i64 = 0;
        while a <= ay
            invariant
                pdistx == p2.x - p1.x,
                pdisty == p2.y - p1.y,
                ax == iabs(pdistx as int),
                ay == iabs(pdisty as int),
                ax <= ay,
                sgn == (if pdisty > 0 { 1int } else { -1int }),
                p1.x <= 0x40000000,
                p1.y <= 0x40000000,
                p2.x <= 0x40000000,
                p2.y <= 0x40000000,
                0 <= a <= ay + 1,
                res@.len() == a,
                forall|j: int|
                    0 <= j < res@.len() ==> ((#[trigger] res@[j]).x as int, res@[j].y as int)
                        == line_px_spec(p1, pdistx as int, pdisty as int, j),
            decreases ay + 1 - a,
        {
            let dy: i64 = a * sgn;
            proof {
                lemma_abs_mul(a as int, sgn as int);
                assert(iabs(dy as int) == a);
                if pdisty != 0 {
                    lemma_tdiv_mag((dy as int) * (pdistx as int), pdisty as int);
                    lemma_abs_mul(dy as int, pdistx as int);
                    assert(iabs(dy as int) * iabs(pdistx as int) <= iabs(pdisty as int) * iabs(
                    pdistx as int)) by (nonlinear_arith)
                        requires
                            0 <= iabs(dy as int) <= iabs(pdisty as int),
                            0 <= iabs(pdistx as int),
                    ;
                    vstd::arithmetic::div_mod::lemma_div_is_ordered(
                        iabs((dy as int) * (pdistx as int)),
                        iabs(pdisty as int) * iabs(pdistx as int),
                        iabs(pdisty as int),
                    );
                    assert(iabs(pdisty as int) * iabs(pdistx as int) == iabs(pdistx as int)
                        * iabs(pdisty as int)) by (nonlinear_arith);
                    vstd::arithmetic::div_mod::lemma_div_multiples_vanish(
                        iabs(pdistx as int),
                        iabs(pdisty as int),
                    );
                    if pdistx >= 0 {
                        assert((dy as int) * (pdistx as int) * (pdisty as int) >= 0)
                            by (nonlinear_arith)
                            requires
                                iabs(dy as int) == a,
                                0 <= a,
                                sgn == isign(pdisty as int),
                                dy == a * sgn,
                                pdisty != 0,
                                pdistx >= 0,
                        ;
                    } else {
                        assert((dy as int) * (pdistx as int) * (pdisty as int) <= 0)
                            by (nonlinear_arith)
                            requires
                                iabs(dy as int) == a,
                                0 <= a,
                                sgn == isign(pdisty as int),
                                dy == a * sgn,
                                pdisty != 0,
                                pdistx < 0,
                        ;
                    }
                }
            }
            let dx: i64 = if pdisty == 0 {
                0
            } else {
                proof {
                    assert(iabs(pdisty as int) * iabs(pdistx as int) <= 0x4000000000000000)
                        by (nonlinear_arith)
                        requires
                            0 <= iabs(pdistx as int) <= 0x80000000,
                            0 <= iabs(pdisty as int) <= 0x80000000,
                    ;
                }
                crate::fixed::idiv_signed(dy * pdistx, pdisty)
            };
            proof {
                assert(0 <= p1.x + dx <= 0x80000000 && 0 <= p1.y + dy <= 0x80000000) by {
                    if pdisty != 0 {
                        if pdisty > 0 {
                            assert(dy == a);
                        } else {
                            assert(dy == -a);
                        }
                        lemma_tdiv_sgn_product(dy as int, pdistx as int, pdisty as int);
                    } else {
                        assert(a == 0 && dy == 0 && dx == 0);
                    }
                }
            }
            res.push(
                Coordinates2D { x: (p1.x as i64 + dx) as u32, y: (p1.y as i64 + dy) as u32 },
            );
            a = a + 1;
        }
    }
    res
}

/// How many stops a stepped axis of the given extent has.
pub open spec fn grid_stops_spec(dim: int, spacing: int) -> int
    recommends spacing >= 1,
{
    (dim + spacing - 1) / spacing
}

/// The j-th pixel of a grid: first the vertical lines column by column,
/// then the horizontal lines row by row.
pub open spec fn grid_px_spec(dimx: int, dimy: int, spacing: int, j: int) -> (int, int) {
    let n1 = grid_stops_spec(dimx, spacing);
    if j < n1 * dimy {
        ((j / dimy) * spacing, j % dimy)
    } else {
        let j2 = j - n1 * dimy;
        (j2 % dimx, (j2 / dimx) * spacing)
    }
}

/// The pixels of a grid over an image: vertical lines every `spacing`
/// columns, then horizontal lines every `spacing` rows.
pub fn draw_grid(dimx: u32, dimy: u32, spacing: usize) -> (res: Vec<Coordinates2D>)
    requires
        1 <= spacing <= 0x40000000,
        dimx <= 0x40000000,
        dimy <= 0x40000000,
        (dimx as int) * (dimy as int) <= 0x8000000,
    ensures
        res@.len() == grid_stops_spec(dimx as int, spacing as int) * (dimy as int)
            + grid_stops_spec(dimy as int, spacing as int) * (dimx as int),
        forall|j: int|
            0 <= j < res@.len() ==> ((#[trigger] res@[j]).x as int, res@[j].y as int)
                == grid_px_spec(dimx as int, dimy as int, spacing as int, j),
{
    let sp: u32 = spacing as u32;
    let n1: u32 = (dimx + sp - 1) / sp;
    let n2: u32 = (dimy + sp - 1) / sp;
    proof {
        lemma_grid_stop_bounds(dimx as int, sp as int);
        lemma_grid_stop_bounds(dimy as int, sp as int);
        assert((n1 as int) * (dimy as int) <= (dimx as int) * (dimy as int)) by (nonlinear_arith)
            requires 0 <= n1 as int <= dimx as int, 0 <= dimy as int,
        ;
        assert((n2 as int) * (dimx as int) <= (dimy as int) * (dimx as int)) by (nonlinear_arith)
            requires 0 <= n2 as int <= dimy as int, 0 <= dimx as int,
        ;
        assert((dimy as int) * (dimx as int) == (dimx as int) * (dimy as int)) by (nonlinear_arith);
    }
    let mut res: Vec<Coordinates2D> = Vec::new();
    let mut k: u32 = 0;
    while k < n1
        invariant
            sp == spacing,
            1 <= sp <= 0x40000000,
            dimx <= 0x40000000,
            dimy <= 0x40000000,
            n1 as int == grid_stops_spec(dimx as int, sp as int),
            n1 <= dimx,
            (n1 as int) * (dimy as int) <= 0x8000000,
            k <= n1,
            res@.len() == (k as int) * (dimy as int),
            forall|j: int|
                0 <= j < res@.len() ==> ((#[trigger] res@[j]).x as int, res@[j].y as int)
                    == grid_px_spec(dimx as int, dimy as int, sp as int, j),
        decreases n1 - k,
    {
        proof {
            assert((k as int) * (sp as int) < dimx as int) by {
                lemma_grid_stop_tight(dimx as int, sp as int, k as int);
            }
            assert((k as int) * (dimy as int) + dimy as int == (k as int + 1) * (dimy as int))
                by (nonlinear_arith);
            assert((k as int + 1) * (dimy as int) <= (n1 as int) * (dimy as int))
                by (nonlinear_arith)
                requires k as int + 1 <= n1 as int, 0 <= dimy as int,
            ;
        }
        let x: u32 = k * sp;
        let mut y: u32 = 0;
        while y < dimy
            invariant
                y <= dimy,
                k < n1,
                x as int == (k as int) * (sp as int),
                x < dimx,
                n1 as int == grid_stops_spec(dimx as int, sp as int),
                (k as int) * (dimy as int) + dimy as int <= (n1 as int) * (dimy as int),
                (n1 as int) * (dimy as int) <= 0x8000000,
                res@.len() == (k as int) * (dimy as int) + y as int,
                forall|j: int|
                    0 <= j < res@.len() ==> ((#[trigger] res@[j]).x as int, res@[j].y as int)
                        == grid_px_spec(dimx as int, dimy as int, sp as int, j),
            decreases dimy - y,
        {
            proof {
                lemma_fundamental_div_mod_converse(
                    (k as int) * (dimy as int) + y as int,
                    dimy as int,
                    k as int,
                    y as int,
                );
            }
            res.push(Coordinates2D { x, y });
            y = y + 1;
        }
        k = k + 1;
    }
    let part1: usize = res.len();
    let mut k2: u32 = 0;
    while k2 < n2
        invariant
            sp == spacing,
            1 <= sp <= 0x40000000,
            dimx <= 0x40000000,
            dimy <= 0x40000000,
            n2 as int == grid_stops_spec(dimy as int, sp as int),
            n2 <= dimy,
            part1 as int == grid_stops_spec(dimx as int, sp as int) * (dimy as int),
            (n2 as int) * (dimx as int) <= 0x8000000,
            part1 <= 0x8000000,
            k2 <= n2,
            res@.len() == part1 as int + (k2 as int) * (dimx as int),
            forall|j: int|
                0 <= j < res@.len() ==> ((#[trigger] res@[j]).x as int, res@[j].y as int)
                    == grid_px_spec(dimx as int, dimy as int, sp as int, j),
        decreases n2 - k2,
    {
        proof {
            assert((k2 as int) * (sp as int) < dimy as int) by {
                lemma_grid_stop_tight(dimy as int, sp as int, k2 as int);
            }
            assert((k2 as int) * (dimx as int) + dimx as int == (k2 as int + 1) * (dimx as int))
                by (nonlinear_arith);
            assert((k2 as int + 1) * (dimx as int) <= (n2 as int) * (dimx as int))
                by (nonlinear_arith)
                requires k2 as int + 1 <= n2 as int, 0 <= dimx as int,
            ;
        }
        let yy: u32 = k2 * sp;
        let mut x: u32 = 0;
        while x < dimx
            invariant
                x <= dimx,
                k2 < n2,
                yy as int == (k2 as int) * (sp as int),
                yy < dimy,
                part1 as int == grid_stops_spec(dimx as int, sp as int) * (dimy as int),
                (k2 as int) * (dimx as int) + dimx as int <= (n2 as int) * (dimx as int),
                (n2 as int) * (dimx as int) <= 0x8000000,
                part1 <= 0x8000000,
                res@.len() == part1 as int + (k2 as int) * (dimx as int) + x as int,
                forall|j: int|
                    0 <= j < res@.len() ==> ((#[trigger] res@[j]).x as int, res@[j].y as int)
                        == grid_px_spec(dimx as int, dimy as int, sp as int, j),
            decreases dimx - x,
        {
            proof {
                lemma_fundamental_div_mod_converse(
                    (k2 as int) * (dimx as int) + x as int,
                    dimx as int,
                    k2 as int,
                    x as int,
                );
            }
            res.push(Coordinates2D { x, y: yy });
            x = x + 1;
        }
        k2 = k2 + 1;
    }
    res
}

/// The stepped stop count covers the extent and nothing more.
proof fn lemma_grid_stop_bounds(dim: int, sp: int)
    requires
        1 <= sp,
        0 <= dim,
    ensures
        0 <= grid_stops_spec(dim, sp) <= dim,
{
    lemma_fundamental_div_mod(dim + sp - 1, sp);
    lemma_mod_bound(dim + sp - 1, sp);
    let q = (dim + sp - 1) / sp;
    assert(sp * q == q * sp) by (nonlinear_arith);
    if q < 0 {
        assert(q * sp <= -sp) by (nonlinear_arith)
            requires q <= -1, sp >= 1,
        ;
    }
    if q > dim {
        assert(q * sp >= (dim + 1) * sp) by (nonlinear_arith)
            requires q >= dim + 1, sp >= 1,
        ;
        assert((dim + 1) * sp >= dim + sp) by (nonlinear_arith)
            requires sp >= 1, dim >= 0,
        ;
    }
}

/// Every stop but the last lies strictly inside the extent.
proof fn lemma_grid_stop_tight(dim: int, sp: int, k: int)
    requires
        1 <= sp,
        0 <= dim,
        0 <= k < grid_stops_spec(dim, sp),
    ensures
        k * sp < dim,
{
    lemma_fundamental_div_mod(dim + sp - 1, sp);
    lemma_mod_bound(dim + sp - 1, sp);
    let q = (dim + sp - 1) / sp;
    assert(sp * q == q * sp) by (nonlinear_arith);
    assert((q - 1) * sp == q * sp - sp) by (nonlinear_arith);
    assert(k * sp <= (q - 1) * sp) by (nonlinear_arith)
        requires k <= q - 1, sp >= 1,
    ;
}

/// A truncating quotient keeps the sign of the product of its operands.
proof fn lemma_tdiv_sgn_product(u: int, v: int, w: int)
    requires
        w != 0,
    ensures
        u * v * w >= 0 ==> tdiv(u * v, w) >= 0,
        u * v * w <= 0 ==> tdiv(u * v, w) <= 0,
{
    let q = u * v;
    vstd::arithmetic::div_mod::lemma_div_pos_is_pos(iabs(q), iabs(w));
    if q == 0 {
        vstd::arithmetic::div_mod::lemma_div_basics_1(iabs(w));
        assert(tdiv(q, w) == 0);
    } else if q > 0 && w > 0 {
        assert(q * w > 0) by (nonlinear_arith)
            requires q > 0, w > 0,
        ;
    } else if q > 0 && w < 0 {
        assert(q * w < 0) by (nonlinear_arith)
            requires q > 0, w < 0,
        ;
    } else if q < 0 && w > 0 {
        assert(q * w < 0) by (nonlinear_arith)
            requires q < 0, w > 0,
        ;
    } else {
        assert(q * w > 0) by (nonlinear_arith)
            requires q < 0, w < 0,
        ;
    }
}

} // verus!
