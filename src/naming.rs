use vstd::prelude::*;

verus! {

/// The width to which a line index is padded with zeros in an artifact's name.
pub const INDEX_WIDTH: usize = 5;

/// The ASCII digits of `n` in base ten, most significant first, with no leading zero.
pub open spec fn decimal(n: nat) -> Seq<u8>
    decreases n,
{
    if n < 10 {
        seq![(48 + n) as u8]
    } else {
        decimal(n / 10).push((48 + n % 10) as u8)
    }
}

/// The digits of `n`, with zeros in front up to `width` digits.
pub open spec fn zero_padded(n: nat, width: nat) -> Seq<u8> {
    let d = decimal(n);
    if d.len() >= width {
        d
    } else {
        Seq::new((width - d.len()) as nat, |i: int| 48u8) + d
    }
}

/// The name of the artifact of line `index`: `<prefix>_<index><ext>`, the index padded
/// with zeros to at least five digits.
pub open spec fn artifact_name(prefix: Seq<u8>, index: nat, ext: Seq<u8>) -> Seq<u8> {
    prefix.push(95u8) + zero_padded(index, INDEX_WIDTH as nat) + ext
}

/// Builds the file name of the artifact of line `index`, as ASCII bytes.
pub fn line_file_name(index: u32, prefix: &[u8], ext: &[u8]) -> (r: Vec<u8>)
    ensures
        r@ == artifact_name(prefix@, index as nat, ext@),
{
    let mut digits: Vec<u8> = Vec::new();
    let mut m: u32 = index;
    while m >= 10
        invariant
            decimal(index as nat) == decimal(m as nat) + digits@,
        decreases m,
    {
        let d = (48 + m % 10) as u8;
        let ghost before = digits@;
        digits.insert(0, d);
        assert(decimal(m as nat) == decimal((m / 10) as nat).push(d));
        assert(decimal(m as nat) + before =~= decimal((m / 10) as nat) + digits@);
        m = m / 10;
    }
    let ghost before = digits@;
    digits.insert(0, (48 + m) as u8);
    assert(digits@ =~= decimal(m as nat) + before);
    let mut name: Vec<u8> = Vec::new();
    crate::splice::append_tail(&mut name, prefix, 0);
    name.push(95u8);
    let ghost head = name@;
    let pad: usize = if digits.len() < INDEX_WIDTH {
        INDEX_WIDTH - digits.len()
    } else {
        0
    };
    let mut j: usize = 0;
    while j < pad
        invariant
            j <= pad,
            name@ == head + Seq::new(j as nat, |i: int| 48u8),
        decreases pad - j,
    {
        name.push(48u8);
        j = j + 1;
        assert(name@ =~= head + Seq::new(j as nat, |i: int| 48u8));
    }
    crate::splice::append_tail(&mut name, digits.as_slice(), 0);
    crate::splice::append_tail(&mut name, ext, 0);
    assert(prefix@.skip(0) =~= prefix@);
    assert(digits@.skip(0) =~= digits@);
    assert(ext@.skip(0) =~= ext@);
    if digits.len() >= INDEX_WIDTH {
        assert(Seq::new(0, |i: int| 48u8) + digits@ =~= digits@);
    }
    assert(name@ =~= artifact_name(prefix@, index as nat, ext@));
    name
}

} // verus!
