//! The container of an icon file: a directory of images, then the images.

use vstd::prelude::*;

verus! {

/// The sizes that an icon is made in.
pub open spec fn icon_sizes() -> Seq<u32> {
    seq![16u32, 24, 32, 48, 64, 128, 256]
}

/// The sizes that an icon is made in.
pub fn sizes() -> (sizes: Vec<u32>)
    ensures
        sizes@ == icon_sizes(),
{
    let mut sizes: Vec<u32> = Vec::new();
    sizes.push(16);
    sizes.push(24);
    sizes.push(32);
    sizes.push(48);
    sizes.push(64);
    sizes.push(128);
    sizes.push(256);
    assert(sizes@ =~= icon_sizes());
    sizes
}

/// Two bytes for a number, least significant first.
pub open spec fn le16(n: int) -> Seq<u8> {
    seq![(n % 256) as u8, (n / 256 % 256) as u8]
}

/// Four bytes for a number, least significant first.
pub open spec fn le32(n: int) -> Seq<u8> {
    seq![
        (n % 256) as u8,
        (n / 256 % 256) as u8,
        (n / 65536 % 256) as u8,
        (n / 16777216 % 256) as u8,
    ]
}

fn push_le16(out: &mut Vec<u8>, n: u16)
    ensures
        final(out)@ == old(out)@ + le16(n as int),
{
    out.push((n % 256) as u8);
    out.push((n / 256) as u8);
    assert(out@ =~= old(out)@ + le16(n as int));
}

fn push_le32(out: &mut Vec<u8>, n: u32)
    ensures
        final(out)@ == old(out)@ + le32(n as int),
{
    out.push((n % 256) as u8);
    out.push((n / 256 % 256) as u8);
    out.push((n / 65536 % 256) as u8);
    out.push((n / 16777216) as u8);
    assert(out@ =~= old(out)@ + le32(n as int));
}

/// Images as mathematical values: side and encoded bytes.
pub open spec fn image_models(images: Seq<(u32, Vec<u8>)>) -> Seq<(u32, Seq<u8>)> {
    images.map_values(|image: (u32, Vec<u8>)| (image.0, image.1@))
}

/// The side of an image as the directory gives it: zero stands for anything
/// from 256 on.
pub open spec fn side_byte(side: u32) -> u8 {
    if side >= 256 {
        0
    } else {
        side as u8
    }
}

/// The bytes of several images one after the other.
pub open spec fn blobs(images: Seq<(u32, Seq<u8>)>) -> Seq<u8>
    decreases images.len(),
{
    if images.len() == 0 {
        Seq::empty()
    } else {
        blobs(images.drop_last()) + images.last().1
    }
}

/// Where the bytes of an image start.
pub open spec fn offset_of(images: Seq<(u32, Seq<u8>)>, at: int) -> int {
    (6 + 16 * images.len() + blobs(images.take(at)).len()) as int
}

/// An image's entry in the directory: side twice, no palette, one plane, 32 bits
/// a pixel, and where its bytes stand.
pub open spec fn directory_entry(side: u32, length: int, offset: int) -> Seq<u8> {
    seq![side_byte(side), side_byte(side), 0u8, 0u8] + le16(1) + le16(32) + le32(length) + le32(
        offset,
    )
}

/// The directory entries of the first `count` images.
pub open spec fn directory(images: Seq<(u32, Seq<u8>)>, count: nat) -> Seq<u8>
    decreases count,
{
    if count == 0 {
        Seq::empty()
    } else {
        let at = count - 1;
        directory(images, at as nat) + directory_entry(
            images[at].0,
            images[at].1.len() as int,
            offset_of(images, at),
        )
    }
}

/// An icon file.
pub open spec fn icon_file(images: Seq<(u32, Seq<u8>)>) -> Seq<u8> {
    le16(0) + le16(1) + le16(images.len() as int) + directory(images, images.len()) + blobs(images)
}

proof fn blobs_grow(images: Seq<(u32, Seq<u8>)>, at: int, end: int)
    requires
        0 <= at <= end <= images.len(),
    ensures
        blobs(images.take(at)).len() <= blobs(images.take(end)).len(),
    decreases end - at,
{
    if at < end {
        blobs_grow(images, at, end - 1);
        assert(images.take(end).drop_last() =~= images.take(end - 1));
    }
}

/// Builds an icon file from encoded images. The number of images and the length
/// of the file have to fit the fields that hold them.
pub fn build_icon(images: &Vec<(u32, Vec<u8>)>) -> (file: Vec<u8>)
    requires
        images@.len() <= u16::MAX,
        icon_file(image_models(images@)).len() <= u32::MAX,
    ensures
        file@ == icon_file(image_models(images@)),
{
    let ghost all = image_models(images@);
    let count = images.len();
    proof {
        directory_length(all, all.len());
    }
    let mut file: Vec<u8> = Vec::new();
    push_le16(&mut file, 0);
    push_le16(&mut file, 1);
    push_le16(&mut file, count as u16);
    let ghost head = file@;
    assert(head =~= le16(0) + le16(1) + le16(all.len() as int));
    let mut offset: u32 = 6 + 16 * count as u32;
    assert(all.take(0) =~= Seq::empty());
    assert(head + directory(all, 0) =~= head);
    for i in 0..images.len()
        invariant
            all == image_models(images@),
            images@.len() <= u16::MAX,
            6 + 16 * all.len() + blobs(all).len() <= u32::MAX,
            offset == offset_of(all, i as int),
            file@ == head + directory(all, i as nat),
    {
        let ghost before = file@;
        let (side, blob) = (images[i].0, &images[i].1);
        let byte: u8 = if side >= 256 {
            0
        } else {
            side as u8
        };
        proof {
            assert(all[i as int] == (side, blob@));
            assert(all.take(i + 1).drop_last() =~= all.take(i as int));
            blobs_grow(all, i + 1, all.len() as int);
            assert(all.take(all.len() as int) =~= all);
        }
        file.push(byte);
        file.push(byte);
        file.push(0);
        file.push(0);
        push_le16(&mut file, 1);
        push_le16(&mut file, 32);
        push_le32(&mut file, blob.len() as u32);
        push_le32(&mut file, offset);
        offset = offset + blob.len() as u32;
        proof {
            let entry = directory_entry(side, blob@.len() as int, offset_of(all, i as int));
            assert(file@ =~= before + entry);
            assert(head + (directory(all, i as nat) + entry) =~= head + directory(all, i as nat)
                + entry);
        }
    }
    let ghost front = file@;
    assert(front + blobs(all.take(0)) =~= front);
    for i in 0..images.len()
        invariant
            all == image_models(images@),
            file@ == front + blobs(all.take(i as int)),
    {
        let ghost before = file@;
        let blob = &images[i].1;
        file.extend_from_slice(blob.as_slice());
        proof {
            assert(all[i as int] == (images@[i as int].0, blob@));
            assert(all.take(i + 1).drop_last() =~= all.take(i as int));
            assert(all.take(i + 1).last() == all[i as int]);
            assert(file@ =~= before + blob@);
            assert(front + (blobs(all.take(i as int)) + blob@) =~= front + blobs(
                all.take(i as int),
            ) + blob@);
        }
    }
    assert(all.take(images@.len() as int) =~= all);
    file
}

proof fn directory_length(images: Seq<(u32, Seq<u8>)>, count: nat)
    ensures
        directory(images, count).len() == 16 * count,
    decreases count,
{
    if count > 0 {
        directory_length(images, (count - 1) as nat);
    }
}

proof fn blobs_start(images: Seq<(u32, Seq<u8>)>, at: int, end: int)
    requires
        0 <= at < end <= images.len(),
    ensures
        blobs(images.take(at)).len() + images[at].1.len() <= blobs(images.take(end)).len(),
        blobs(images.take(end)).subrange(
            blobs(images.take(at)).len() as int,
            (blobs(images.take(at)).len() + images[at].1.len()) as int,
        ) == images[at].1,
    decreases end - at,
{
    let before = blobs(images.take(end - 1));
    assert(images.take(end).drop_last() =~= images.take(end - 1));
    assert(images.take(end).last() == images[end - 1]);
    let all = blobs(images.take(end));
    let from = blobs(images.take(at)).len() as int;
    let to = from + images[at].1.len();
    if at == end - 1 {
        assert(all.subrange(from, to) =~= images[at].1);
    } else {
        blobs_start(images, at, end - 1);
        assert(all.subrange(from, to) =~= before.subrange(from, to));
    }
}

/// Every image's bytes stand in the file where its directory entry says.
pub proof fn images_stand_where_the_directory_says(images: Seq<(u32, Seq<u8>)>, at: int)
    requires
        0 <= at < images.len(),
    ensures
        icon_file(images).subrange(
            offset_of(images, at),
            offset_of(images, at) + images[at].1.len(),
        ) == images[at].1,
{
    directory_length(images, images.len());
    blobs_start(images, at, images.len() as int);
    assert(images.take(images.len() as int) =~= images);
    let front = 6 + 16 * images.len();
    let from = offset_of(images, at);
    let to = from + images[at].1.len();
    assert(icon_file(images).subrange(from, to) =~= blobs(images).subrange(
        from - front,
        to - front,
    ));
}

} // verus!
