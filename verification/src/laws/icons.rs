//! Icon files.

use vstd::prelude::*;

use crate::icon;

verus! {

/// The number that bytes make up, the least significant first.
pub open spec fn made_up_of(bytes: Seq<u8>) -> int
    decreases bytes.len(),
{
    if bytes.len() == 0 {
        0
    } else {
        bytes[0] as int + 256 * made_up_of(bytes.drop_first())
    }
}

/// Two bytes make up a number of sixteen bits, four bytes one of thirty-two.
pub proof fn bytes_make_up_the_number(n: int)
    ensures
        icon::le16(n).len() == 2,
        icon::le32(n).len() == 4,
        0 <= n < 0x1_0000 ==> made_up_of(icon::le16(n)) == n,
        0 <= n < 0x1_0000_0000 ==> made_up_of(icon::le32(n)) == n,
{
    reveal_with_fuel(made_up_of, 5);
    let two = icon::le16(n);
    let four = icon::le32(n);
    assert(two.drop_first().drop_first() =~= Seq::empty());
    assert(four.drop_first().drop_first().drop_first().drop_first() =~= Seq::empty());
}

/// An icon is made in seven sizes, each larger than the one before.
pub proof fn an_icon_has_seven_sizes()
    ensures
        icon::icon_sizes() == seq![16u32, 24, 32, 48, 64, 128, 256],
{
}

/// A directory entry has sixteen bytes: the side twice, where 256 is written as
/// zero, no palette, one plane, 32 bits a pixel, the length and the place.
pub proof fn a_directory_entry_describes_its_image(side: u32, length: int, offset: int)
    requires
        0 < side <= 256,
    ensures
        ({
            let entry = icon::directory_entry(side, length, offset);
            &&& entry.len() == 16
            &&& entry[0] as int == side % 256
            &&& entry[1] as int == side % 256
            &&& entry[2] == 0
            &&& entry[3] == 0
            &&& made_up_of(entry.subrange(4, 6)) == 1
            &&& made_up_of(entry.subrange(6, 8)) == 32
            &&& 0 <= length < 0x1_0000_0000 ==> made_up_of(entry.subrange(8, 12)) == length
            &&& 0 <= offset < 0x1_0000_0000 ==> made_up_of(entry.subrange(12, 16)) == offset
        }),
{
    let entry = icon::directory_entry(side, length, offset);
    bytes_make_up_the_number(1);
    bytes_make_up_the_number(32);
    bytes_make_up_the_number(length);
    bytes_make_up_the_number(offset);
    assert(entry.subrange(4, 6) =~= icon::le16(1));
    assert(entry.subrange(6, 8) =~= icon::le16(32));
    assert(entry.subrange(8, 12) =~= icon::le32(length));
    assert(entry.subrange(12, 16) =~= icon::le32(offset));
}

proof fn a_directory_has_its_entries(images: Seq<(u32, Seq<u8>)>, count: nat, at: int)
    requires
        0 <= at < count <= images.len(),
    ensures
        icon::directory(images, count).len() == 16 * count,
        icon::directory(images, count).subrange(16 * at, 16 * at + 16) == icon::directory_entry(
            images[at].0,
            images[at].1.len() as int,
            icon::offset_of(images, at),
        ),
    decreases count,
{
    let before = icon::directory(images, (count - 1) as nat);
    let last = icon::directory_entry(
        images[count - 1].0,
        images[count - 1].1.len() as int,
        icon::offset_of(images, count - 1),
    );
    assert(last.len() == 16);
    if count > 1 {
        a_directory_has_its_entries(
            images,
            (count - 1) as nat,
            if at < count - 1 {
                at
            } else {
                0
            },
        );
    }
    assert(before.len() == 16 * (count - 1));
    let all = icon::directory(images, count);
    assert(all == before + last);
    if at < count - 1 {
        assert(all.subrange(16 * at, 16 * at + 16) =~= before.subrange(16 * at, 16 * at + 16));
    } else {
        assert(all.subrange(16 * at, 16 * at + 16) =~= last);
    }
}

proof fn blobs_hold_their_images(images: Seq<(u32, Seq<u8>)>, at: int)
    requires
        0 <= at < images.len(),
    ensures
        ({
            let start = icon::blobs(images.take(at)).len() as int;
            let end = start + images[at].1.len();
            &&& end <= icon::blobs(images).len()
            &&& icon::blobs(images).subrange(start, end) == images[at].1
        }),
    decreases images.len(),
{
    let start = icon::blobs(images.take(at)).len() as int;
    let end = start + images[at].1.len();
    let fewer = images.drop_last();
    if at < fewer.len() {
        blobs_hold_their_images(fewer, at);
        assert(fewer.take(at) =~= images.take(at));
        assert(icon::blobs(images).subrange(start, end) =~= icon::blobs(fewer).subrange(
            start,
            end,
        ));
    } else {
        assert(images.take(at) =~= fewer);
        assert(icon::blobs(images).subrange(start, end) =~= images[at].1);
    }
}

/// An icon file says what it is and how many images it has, and each entry of
/// its directory leads to the bytes of its image.
pub proof fn entries_lead_to_their_images(images: Seq<(u32, Seq<u8>)>, at: int)
    requires
        0 <= at < images.len() < 0x1_0000,
        icon::icon_file(images).len() < 0x1_0000_0000,
        forall|i: int| 0 <= i < images.len() ==> 0 < (#[trigger] images[i]).0 <= 256,
    ensures
        ({
            let file = icon::icon_file(images);
            let entry = file.subrange(6 + 16 * at, 22 + 16 * at);
            let length = made_up_of(entry.subrange(8, 12));
            let start = made_up_of(entry.subrange(12, 16));
            &&& made_up_of(file.subrange(0, 2)) == 0
            &&& made_up_of(file.subrange(2, 4)) == 1
            &&& made_up_of(file.subrange(4, 6)) == images.len()
            &&& entry[0] as int == images[at].0 % 256
            &&& 0 <= start <= start + length <= file.len()
            &&& file.subrange(start, start + length) == images[at].1
        }),
{
    let file = icon::icon_file(images);
    let all = icon::directory(images, images.len());
    let blobs = icon::blobs(images);
    let own = icon::directory_entry(
        images[at].0,
        images[at].1.len() as int,
        icon::offset_of(images, at),
    );
    bytes_make_up_the_number(0);
    bytes_make_up_the_number(1);
    bytes_make_up_the_number(images.len() as int);
    a_directory_has_its_entries(images, images.len(), at);
    blobs_hold_their_images(images, at);
    let head = icon::le16(0) + icon::le16(1) + icon::le16(images.len() as int);
    assert(head.len() == 6);
    assert(file == head + all + blobs);
    assert(file.subrange(0, 2) =~= icon::le16(0));
    assert(file.subrange(2, 4) =~= icon::le16(1));
    assert(file.subrange(4, 6) =~= icon::le16(images.len() as int));
    let entry = file.subrange(6 + 16 * at, 22 + 16 * at);
    assert(entry =~= all.subrange(16 * at, 16 * at + 16));
    let start = icon::offset_of(images, at);
    let first = icon::blobs(images.take(at)).len() as int;
    assert(start == 6 + 16 * images.len() + first);
    assert(start + images[at].1.len() <= file.len());
    a_directory_entry_describes_its_image(images[at].0, images[at].1.len() as int, start);
    assert(file.subrange(start, start + images[at].1.len()) =~= blobs.subrange(
        first,
        first + images[at].1.len(),
    ));
}

} // verus!
