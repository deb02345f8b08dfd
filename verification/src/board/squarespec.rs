//! Coordinates of a board cell and signed offsets between cells.
use vstd::prelude::*;
use crate::error::Error;
use crate::text::{chars_of, string_of};

verus! {

/// A particular square on the board. Rank 0 is rank "1", file 0 is the "a"
/// file; a square of the board has both components in `0..=7`.
#[derive(Copy, Clone, Debug, PartialEq, Eq, Hash, Structural)]
pub struct SquareSpec {
    /// The rank of this square, with 0 being rank 1, and so on
    pub rank: u32,
    /// The file of this square, with 0 being the "a" file, etc.
    pub file: u32,
}

/// A difference between two squares: a relative offset, not a location.
#[derive(Copy, Clone, Debug, PartialEq, Eq, Structural)]
pub struct SquareDiff {
    /// The rank difference
    pub d_rank: i32,
    /// The file difference
    pub d_file: i32,
}

/// Whether the coordinates name one of the 64 cells.
pub open spec fn in_bounds(rank: int, file: int) -> bool {
    0 <= rank <= 7 && 0 <= file <= 7
}

/// The sign of an integer: -1, 0 or 1.
pub open spec fn signum(x: int) -> int {
    if x < 0 {
        -1
    } else if x == 0 {
        0
    } else {
        1
    }
}

/// The absolute value of an integer.
pub open spec fn magnitude(x: int) -> int {
    if x < 0 {
        -x
    } else {
        x
    }
}

/// The sign of `x`.
pub fn sgn(x: i32) -> (s: i32)
    ensures
        s == signum(x as int),
{
    if x < 0 {
        -1
    } else if x == 0 {
        0
    } else {
        1
    }
}

impl SquareSpec {
    /// Both components lie on the board.
    pub open spec fn wf(self) -> bool {
        self.rank <= 7 && self.file <= 7
    }

    /// Position of the square in a rank-by-rank walk of the board that starts at a1.
    pub open spec fn ordinal(self) -> int {
        8 * self.rank + self.file
    }

    /// The square reached by the offset, if it is on the board.
    pub open spec fn shifted(self, by: SquareDiff) -> Option<SquareSpec> {
        let rank = self.rank + by.d_rank;
        let file = self.file + by.d_file;
        if in_bounds(rank, file) {
            Some(SquareSpec { rank: rank as u32, file: file as u32 })
        } else {
            None
        }
    }

    /// The offset that leads from `origin` to this square.
    pub open spec fn offset_from(self, origin: SquareSpec) -> SquareDiff {
        SquareDiff {
            d_rank: (self.rank - origin.rank) as i32,
            d_file: (self.file - origin.file) as i32,
        }
    }

    /// The two characters that name the square, file letter first; `?`
    /// stands for a component that is off the board.
    pub open spec fn text(self) -> Seq<char> {
        seq![
            if self.file <= 7 { (self.file + 'a' as int) as char } else { '?' },
            if self.rank <= 7 { (self.rank + '1' as int) as char } else { '?' },
        ]
    }

    /// The square that a token names: a file letter `a` to `h`, then a rank
    /// digit `1` to `8`, and nothing else.
    pub open spec fn of_text(s: Seq<char>) -> Option<SquareSpec> {
        if s.len() == 2 && 'a' <= s[0] <= 'h' && '1' <= s[1] <= '8' {
            Some(SquareSpec { rank: (s[1] as int - '1' as int) as u32, file: (s[0] as int - 'a' as int) as u32 })
        } else {
            None
        }
    }

    /// Create a new [`SquareSpec`] from coordinates on the board.
    pub fn new(rank: u32, file: u32) -> (s: SquareSpec)
        requires
            rank <= 7,
            file <= 7,
        ensures
            s == (SquareSpec { rank, file }),
    {
        SquareSpec { rank, file }
    }

    /// Checked addition with a [`SquareDiff`]: the shifted square, or `None`
    /// when the sum would leave the board.
    pub fn checked_add(self, rhs: SquareDiff) -> (r: Option<SquareSpec>)
        ensures
            r == self.shifted(rhs),
    {
        let rank: i64 = self.rank as i64 + rhs.d_rank as i64;
        let file: i64 = self.file as i64 + rhs.d_file as i64;
        if rank < 0 || rank > 7 || file < 0 || file > 7 {
            return None;
        }
        Some(SquareSpec { rank: rank as u32, file: file as u32 })
    }
}

impl SquareSpec {
    /// Appends the two characters that name the square.
    pub fn push_text(&self, out: &mut Vec<char>)
        ensures
            final(out)@ == old(out)@ + self.text(),
    {
        let file: char = if self.file <= 7 {
            (self.file as u8 + 97) as char
        } else {
            '?'
        };
        let rank: char = if self.rank <= 7 {
            (self.rank as u8 + 49) as char
        } else {
            '?'
        };
        out.push(file);
        out.push(rank);
    }

    /// The name of the square, such as `e4`.
    pub fn to_string(&self) -> (s: String)
        ensures
            s@ == self.text(),
    {
        let mut out: Vec<char> = Vec::new();
        self.push_text(&mut out);
        string_of(&out)
    }

    /// Reads a square from the characters of its name.
    pub fn from_chars(chars: &Vec<char>) -> (r: Option<SquareSpec>)
        ensures
            r == SquareSpec::of_text(chars@),
    {
        if chars.len() != 2 {
            return None;
        }
        let f = chars[0];
        let r = chars[1];
        if f < 'a' || f > 'h' || r < '1' || r > '8' {
            return None;
        }
        Some(SquareSpec { rank: r as u32 - '1' as u32, file: f as u32 - 'a' as u32 })
    }
}

impl core::str::FromStr for SquareSpec {
    type Err = Error;

    /// Reads a square from its name; anything but a file letter followed by
    /// a rank digit is rejected, with the text in the error.
    fn from_str(s: &str) -> (r: Result<SquareSpec, Error>)
        ensures
            match r {
                Ok(sq) => SquareSpec::of_text(s@) == Some(sq),
                Err(e) => SquareSpec::of_text(s@) is None && (e matches Error::InvalidSquare(t)
                    && t@ == s@),
            },
    {
        let chars = chars_of(s);
        match SquareSpec::from_chars(&chars) {
            Some(sq) => Ok(sq),
            None => Err(Error::InvalidSquare(s.to_owned())),
        }
    }
}

/// A square's name reads back as the square.
pub proof fn lemma_square_text_reads_back(sq: SquareSpec)
    requires
        sq.wf(),
    ensures
        SquareSpec::of_text(sq.text()) == Some(sq),
{
}

impl SquareDiff {
    /// Componentwise absolute value.
    pub open spec fn spec_abs(self) -> SquareDiff {
        SquareDiff {
            d_rank: magnitude(self.d_rank as int) as i32,
            d_file: magnitude(self.d_file as int) as i32,
        }
    }

    /// The offset runs along a diagonal (the zero offset counts).
    pub open spec fn diagonal(self) -> bool {
        magnitude(self.d_rank as int) == magnitude(self.d_file as int)
    }

    /// The offset runs along a rank, a file or a diagonal.
    pub open spec fn straight(self) -> bool {
        self.diagonal() || self.d_rank == 0 || self.d_file == 0
    }

    /// The single step that points the way of a straight offset.
    pub open spec fn unit(self) -> Option<SquareDiff> {
        if self.straight() {
            Some(
                SquareDiff {
                    d_rank: signum(self.d_rank as int) as i32,
                    d_file: signum(self.d_file as int) as i32,
                },
            )
        } else {
            None
        }
    }

    /// Creates a new [`SquareDiff`]
    pub fn new(d_rank: i32, d_file: i32) -> (d: SquareDiff)
        ensures
            d == (SquareDiff { d_rank, d_file }),
    {
        SquareDiff { d_rank, d_file }
    }

    /// Get the absolute of this [`SquareDiff`]. The most negative `i32` has
    /// no absolute value of its type.
    pub fn abs(self) -> (d: SquareDiff)
        requires
            self.d_rank > i32::MIN,
            self.d_file > i32::MIN,
        ensures
            d == self.spec_abs(),
    {
        let d_rank: i32 = if self.d_rank < 0 {
            -self.d_rank
        } else {
            self.d_rank
        };
        let d_file: i32 = if self.d_file < 0 {
            -self.d_file
        } else {
            self.d_file
        };
        SquareDiff { d_rank, d_file }
    }

    /// Check if this [`SquareDiff`] represents a diagonal
    pub fn is_diag(&self) -> (b: bool)
        ensures
            b == self.diagonal(),
    {
        let d_rank: i64 = self.d_rank as i64;
        let d_file: i64 = self.d_file as i64;
        d_rank == d_file || d_rank == -d_file
    }

    /// Get the [`SquareDiff`] as a unit "vector", i.e. a one square
    /// difference in any direction. Returns [`None`] unless the offset is
    /// purely horizontal, purely vertical or exactly diagonal.
    pub fn as_unit(self) -> (r: Option<SquareDiff>)
        ensures
            r == self.unit(),
    {
        if self.is_diag() || self.d_rank == 0 || self.d_file == 0 {
            Some(SquareDiff { d_rank: sgn(self.d_rank), d_file: sgn(self.d_file) })
        } else {
            None
        }
    }
}

impl Default for SquareDiff {
    fn default() -> (d: SquareDiff)
        ensures
            d == (SquareDiff { d_rank: 0, d_file: 0 }),
    {
        SquareDiff { d_rank: 0, d_file: 0 }
    }
}

impl core::ops::Sub<SquareSpec> for SquareSpec {
    type Output = SquareDiff;

    fn sub(self, rhs: SquareSpec) -> (d: SquareDiff) {
        SquareDiff {
            d_rank: self.rank as i32 - rhs.rank as i32,
            d_file: self.file as i32 - rhs.file as i32,
        }
    }
}

impl vstd::std_specs::ops::SubSpecImpl<SquareSpec> for SquareSpec {
    open spec fn obeys_sub_spec() -> bool {
        true
    }

    open spec fn sub_req(self, rhs: SquareSpec) -> bool {
        self.wf() && rhs.wf()
    }

    open spec fn sub_spec(self, rhs: SquareSpec) -> SquareDiff {
        self.offset_from(rhs)
    }
}

impl core::ops::Add<SquareDiff> for SquareSpec {
    type Output = SquareSpec;

    fn add(self, rhs: SquareDiff) -> (s: SquareSpec) {
        SquareSpec {
            rank: (self.rank as i64 + rhs.d_rank as i64) as u32,
            file: (self.file as i64 + rhs.d_file as i64) as u32,
        }
    }
}

impl vstd::std_specs::ops::AddSpecImpl<SquareDiff> for SquareSpec {
    open spec fn obeys_add_spec() -> bool {
        true
    }

    open spec fn add_req(self, rhs: SquareDiff) -> bool {
        self.shifted(rhs) is Some
    }

    open spec fn add_spec(self, rhs: SquareDiff) -> SquareSpec {
        self.shifted(rhs)->0
    }
}

impl core::ops::Add<SquareDiff> for SquareDiff {
    type Output = SquareDiff;

    fn add(self, rhs: SquareDiff) -> (d: SquareDiff) {
        SquareDiff { d_rank: self.d_rank + rhs.d_rank, d_file: self.d_file + rhs.d_file }
    }
}

impl vstd::std_specs::ops::AddSpecImpl<SquareDiff> for SquareDiff {
    open spec fn obeys_add_spec() -> bool {
        true
    }

    open spec fn add_req(self, rhs: SquareDiff) -> bool {
        &&& i32::MIN <= self.d_rank + rhs.d_rank <= i32::MAX
        &&& i32::MIN <= self.d_file + rhs.d_file <= i32::MAX
    }

    open spec fn add_spec(self, rhs: SquareDiff) -> SquareDiff {
        SquareDiff {
            d_rank: (self.d_rank + rhs.d_rank) as i32,
            d_file: (self.d_file + rhs.d_file) as i32,
        }
    }
}

impl core::ops::AddAssign<SquareDiff> for SquareSpec {
    fn add_assign(&mut self, rhs: SquareDiff)
        requires
            old(self).shifted(rhs) is Some,
        ensures
            Some(*final(self)) == old(self).shifted(rhs),
    {
        *self = *self + rhs;
    }
}

} // verus!
