use vstd::prelude::*;

verus! {

/// Byte number `place` of a packed pixel, counted from the lowest byte.
pub open spec fn byte_of(pixel: u32, place: int) -> u8 {
    if place == 0 {
        (pixel % 0x100) as u8
    } else if place == 1 {
        (pixel / 0x100 % 0x100) as u8
    } else if place == 2 {
        (pixel / 0x1_0000 % 0x100) as u8
    } else {
        (pixel / 0x100_0000) as u8
    }
}

/// The pixels laid out byte by byte: four bytes for each, lowest byte first,
/// in the order of the pixels.
pub open spec fn bytes_of(pixels: Seq<u32>) -> Seq<u8> {
    Seq::new(4 * pixels.len(), |i: int| byte_of(pixels[i / 4], i % 4))
}

/// The pixel that four bytes, lowest first, stand for.
pub open spec fn pixel_of(b0: u8, b1: u8, b2: u8, b3: u8) -> int {
    b0 + 0x100 * b1 + 0x1_0000 * b2 + 0x100_0000 * b3
}

/// Nothing is lost in the bytes: each pixel is the number that its four
/// bytes spell, so buffers with the same bytes hold the same pixels.
pub proof fn lemma_bytes_lossless(pixels: Seq<u32>, i: int)
    requires
        0 <= i < pixels.len(),
    ensures
        bytes_of(pixels).len() == 4 * pixels.len(),
        pixels[i] == pixel_of(
            bytes_of(pixels)[4 * i],
            bytes_of(pixels)[4 * i + 1],
            bytes_of(pixels)[4 * i + 2],
            bytes_of(pixels)[4 * i + 3],
        ),
{
}

/// The buffer of packed pixels as the bytes that an image encoder takes:
/// for each pixel red, green, blue and alpha, whatever the byte order of the
/// machine.
pub fn convert(data: &[u32]) -> (bytes: Vec<u8>)
    ensures
        bytes@ == bytes_of(data@),
{
    let mut bytes: Vec<u8> = Vec::new();
    let mut i: usize = 0;
    while i < data.len()
        invariant
            i <= data.len(),
            bytes@ == bytes_of(data@.take(i as int)),
        decreases data.len() - i,
    {
        let pixel = data[i];
        let ghost before = bytes@;
        bytes.push((pixel % 0x100) as u8);
        bytes.push((pixel / 0x100 % 0x100) as u8);
        bytes.push((pixel / 0x1_0000 % 0x100) as u8);
        bytes.push((pixel / 0x100_0000) as u8);
        proof {
            let shorter = data@.take(i as int);
            let longer = data@.take(i + 1);
            assert forall|j: int| 0 <= j < 4 * (i + 1) implies bytes@[j] == byte_of(
                longer[j / 4],
                j % 4,
            ) by {
                if j < 4 * i {
                    assert(bytes@[j] == before[j]);
                    assert(longer[j / 4] == shorter[j / 4]);
                }
            }
            assert(bytes@ =~= bytes_of(longer));
        }
        i += 1;
    }
    assert(data@.take(i as int) =~= data@);
    bytes
}

} // verus!
