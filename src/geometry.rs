use vstd::prelude::*;

verus! {

/// Number of squares on the board.
pub const SQUARES: usize = 64;

/// Number of compass directions.
pub const DIRECTIONS: usize = 8;

/// Rank row of a square, 0 for the 8th rank and 7 for the 1st.
pub open spec fn row(s: int) -> int {
    s / 8
}

/// File column of a square, 0 for the a-file and 7 for the h-file.
pub open spec fn col(s: int) -> int {
    s % 8
}

pub open spec fn min2(a: int, b: int) -> int {
    if a <= b {
        a
    } else {
        b
    }
}

/// How many squares a piece on `s` can travel in direction `d` before the
/// board edge. Directions are N, NE, E, SE, S, SW, W, NW in that order.
pub open spec fn dist(s: int, d: int) -> int {
    let up = row(s);
    let right = 7 - col(s);
    let down = 7 - row(s);
    let left = col(s);
    if d == 0 {
        up
    } else if d == 1 {
        min2(up, right)
    } else if d == 2 {
        right
    } else if d == 3 {
        min2(down, right)
    } else if d == 4 {
        down
    } else if d == 5 {
        min2(down, left)
    } else if d == 6 {
        left
    } else {
        min2(up, left)
    }
}

/// The change of square index for one step in direction `d`.
pub open spec fn offset(d: int) -> int {
    if d == 0 {
        -8
    } else if d == 1 {
        -7
    } else if d == 2 {
        1
    } else if d == 3 {
        9
    } else if d == 4 {
        8
    } else if d == 5 {
        7
    } else if d == 6 {
        -1
    } else {
        -9
    }
}

/// `t` holds, for each of the 64 squares, its eight edge distances.
pub open spec fn table_ok(t: Seq<[usize; 8]>) -> bool {
    &&& t.len() == 64
    &&& forall|s: int, d: int| 0 <= s < 64 && 0 <= d < 8 ==> #[trigger] t[s]@[d] == dist(s, d)
}

/// One step from `s` in direction `d` stays on the board and leaves one
/// square less to travel in that direction.
pub proof fn lemma_step(s: int, d: int)
    requires
        0 <= s < 64,
        0 <= d < 8,
        dist(s, d) >= 1,
    ensures
        0 <= s + offset(d) < 64,
        dist(s + offset(d), d) == dist(s, d) - 1,
{
    let r = row(s);
    let c = col(s);
    assert(s == 8 * r + c);
    let n = s + offset(d);
    let (nr, nc) = if d == 0 {
        (r - 1, c)
    } else if d == 1 {
        (r - 1, c + 1)
    } else if d == 2 {
        (r, c + 1)
    } else if d == 3 {
        (r + 1, c + 1)
    } else if d == 4 {
        (r + 1, c)
    } else if d == 5 {
        (r + 1, c - 1)
    } else if d == 6 {
        (r, c - 1)
    } else {
        (r - 1, c - 1)
    };
    assert(0 <= nr < 8 && 0 <= nc < 8);
    assert(n == 8 * nr + nc);
    assert(row(n) == nr && col(n) == nc);
}

/// Edge symmetry of the distance table: along a rank or a file the two
/// opposite distances add up to 7; along a diagonal they add up to 7 less
/// the difference of the two orthogonal distances beside it.
pub proof fn lemma_distance_symmetry(s: int, d: int)
    requires
        0 <= s < 64,
        0 <= d < 4,
    ensures
        d % 2 == 0 ==> dist(s, d) + dist(s, d + 4) == 7,
        d % 2 == 1 ==> dist(s, d) + dist(s, d + 4) == 7 - {
            let a = dist(s, d - 1);
            let b = dist(s, d + 1);
            if a >= b {
                a - b
            } else {
                b - a
            }
        },
{
}

/// The table of edge distances for every square.
pub fn generate_distances() -> (t: Vec<[usize; 8]>)
    ensures
        table_ok(t@),
{
    let mut t: Vec<[usize; 8]> = Vec::new();
    let mut count: usize = 0;
    while count < SQUARES
        invariant
            count <= 64,
            t@.len() == count,
            forall|s: int, d: int| 0 <= s < count && 0 <= d < 8 ==> #[trigger] t@[s]@[d] == dist(s, d),
        decreases 64 - count,
    {
        let row: usize = count / 8;
        let col: usize = count % 8;
        let up: usize = row;
        let right: usize = 7 - col;
        let down: usize = 7 - row;
        let left: usize = col;
        let up_right: usize = if up <= right { up } else { right };
        let down_right: usize = if down <= right { down } else { right };
        let down_left: usize = if down <= left { down } else { left };
        let up_left: usize = if up <= left { up } else { left };
        let v: [usize; 8] = [up, up_right, right, down_right, down, down_left, left, up_left];
        t.push(v);
        proof {
            assert forall|s: int, d: int| 0 <= s < count + 1 && 0 <= d < 8 implies #[trigger] t@[s]@[d] == dist(s, d) by {
                if s == count {
                    assert(t@[s] == v);
                }
            }
        }
        count = count + 1;
    }
    t
}

/// The offset of one step in direction `d`.
pub fn movement(d: usize) -> (r: i16)
    requires
        d < 8,
    ensures
        r == offset(d as int),
{
    if d == 0 {
        -8
    } else if d == 1 {
        -7
    } else if d == 2 {
        1
    } else if d == 3 {
        9
    } else if d == 4 {
        8
    } else if d == 5 {
        7
    } else if d == 6 {
        -1
    } else {
        -9
    }
}

/// The direction whose one-step offset is `off`, if any.
pub fn direction_finder(off: i16) -> (r: Option<usize>)
    ensures
        r matches Some(d) ==> d < 8 && offset(d as int) == off,
        r is None ==> forall|e: int| 0 <= e < 8 ==> offset(e) != off,
{
    let mut d: usize = 0;
    while d < DIRECTIONS
        invariant
            d <= 8,
            forall|e: int| 0 <= e < d ==> offset(e) != off,
        decreases 8 - d,
    {
        if movement(d) == off {
            return Some(d);
        }
        d = d + 1;
    }
    None
}

/// The square one step from `s` in direction `d`.
pub fn step(s: usize, d: usize) -> (r: usize)
    requires
        s < 64,
        d < 8,
        dist(s as int, d as int) >= 1,
    ensures
        r == s + offset(d as int),
        r < 64,
{
    proof {
        lemma_step(s as int, d as int);
    }
    (s as i16 + movement(d)) as usize
}

} // verus!
