//! Which entries of a directory walk are images.

use vstd::prelude::*;
use vstd::string::*;

verus! {

/// The ASCII lower-case form of a character; other characters are unchanged.
pub open spec fn lower(c: char) -> char {
    if 'A' <= c && c <= 'Z' {
        ((c as u8) + 32) as char
    } else {
        c
    }
}

/// A text with every character in ASCII lower case.
pub open spec fn lowered(text: Seq<char>) -> Seq<char> {
    Seq::new(text.len(), |i: int| lower(text[i]))
}

/// The recognized image extensions, compared without regard to case.
pub open spec fn is_image_extension(extension: Seq<char>) -> bool {
    let name = lowered(extension);
    ||| name == seq!['j', 'p', 'g']
    ||| name == seq!['j', 'p', 'e', 'g']
    ||| name == seq!['p', 'n', 'g']
    ||| name == seq!['g', 'i', 'f']
    ||| name == seq!['b', 'm', 'p']
}

spec fn lower_byte(b: u8) -> u8 {
    if 65 <= b && b <= 90 {
        (b + 32) as u8
    } else {
        b
    }
}

/// Whether `bytes`, lower-cased, spell `name`.
fn spells(bytes: &[u8], name: &[u8]) -> (r: bool)
    ensures
        r == (bytes@.len() == name@.len() && forall|i: int|
            0 <= i < bytes@.len() ==> lower_byte(#[trigger] bytes@[i]) == name@[i]),
{
    if bytes.len() != name.len() {
        return false;
    }
    let mut i: usize = 0;
    while i < bytes.len()
        invariant
            i <= bytes@.len(),
            bytes@.len() == name@.len(),
            forall|j: int| 0 <= j < i ==> lower_byte(#[trigger] bytes@[j]) == name@[j],
        decreases bytes@.len() - i,
    {
        let b: u8 = bytes[i];
        let low: u8 = if 65 <= b && b <= 90 {
            b + 32
        } else {
            b
        };
        if low != name[i] {
            return false;
        }
        i += 1;
    }
    true
}

/// Tells whether a path with the given extension names an image: the
/// extension is one of jpg, jpeg, png, gif and bmp, in any mix of cases.
pub fn is_image(extension: Option<&str>) -> (r: bool)
    ensures
        r == (extension matches Some(text) && is_image_extension(text@)),
{
    let text = match extension {
        Some(text) => text,
        None => {
            return false;
        },
    };
    if !text.is_ascii() {
        proof {
            lemma_image_extension_is_ascii(text@);
        }
        return false;
    }
    let bytes = text.as_bytes();
    let r = spells(bytes, "jpg".as_bytes()) || spells(bytes, "jpeg".as_bytes()) || spells(
        bytes,
        "png".as_bytes(),
    ) || spells(bytes, "gif".as_bytes()) || spells(bytes, "bmp".as_bytes());
    proof {
        broadcast use is_ascii_spec_bytes;

        reveal_strlit("jpg");
        reveal_strlit("jpeg");
        reveal_strlit("png");
        reveal_strlit("gif");
        reveal_strlit("bmp");
        assert("jpg"@ =~= seq!['j', 'p', 'g'] && is_ascii("jpg"));
        assert("jpeg"@ =~= seq!['j', 'p', 'e', 'g'] && is_ascii("jpeg"));
        assert("png"@ =~= seq!['p', 'n', 'g'] && is_ascii("png"));
        assert("gif"@ =~= seq!['g', 'i', 'f'] && is_ascii("gif"));
        assert("bmp"@ =~= seq!['b', 'm', 'p'] && is_ascii("bmp"));
        lemma_spells(text@, bytes@, "jpg"@, "jpg".spec_bytes());
        lemma_spells(text@, bytes@, "jpeg"@, "jpeg".spec_bytes());
        lemma_spells(text@, bytes@, "png"@, "png".spec_bytes());
        lemma_spells(text@, bytes@, "gif"@, "gif".spec_bytes());
        lemma_spells(text@, bytes@, "bmp"@, "bmp".spec_bytes());
    }
    r
}

/// Comparing ASCII text byte by byte is comparing it character by character.
proof fn lemma_spells(text: Seq<char>, bytes: Seq<u8>, name: Seq<char>, name_bytes: Seq<u8>)
    requires
        vstd::utf8::is_ascii_chars(text),
        bytes.len() == text.len(),
        forall|i: int| 0 <= i < text.len() ==> #[trigger] bytes[i] == text[i] as u8,
        vstd::utf8::is_ascii_chars(name),
        name_bytes.len() == name.len(),
        forall|i: int| 0 <= i < name.len() ==> #[trigger] name_bytes[i] == name[i] as u8,
    ensures
        (lowered(text) == name) <==> (bytes.len() == name_bytes.len() && forall|i: int|
            0 <= i < bytes.len() ==> lower_byte(#[trigger] bytes[i]) == name_bytes[i]),
{
    if bytes.len() == name_bytes.len() {
        assert forall|i: int| 0 <= i < text.len() implies ((lower_byte(#[trigger] bytes[i])
            == name_bytes[i]) <==> (lower(text[i]) == name[i])) by {
            let c = text[i];
            let d = name[i];
            assert('\0' <= c && c <= '\u{7f}');
            assert('\0' <= d && d <= '\u{7f}');
            assert(lower(c) as u8 == lower_byte(c as u8));
        }
        if lowered(text) == name {
            assert forall|i: int| 0 <= i < bytes.len() implies lower_byte(#[trigger] bytes[i])
                == name_bytes[i] by {
                assert(lowered(text)[i] == lower(text[i]));
            }
        }
        if forall|i: int| 0 <= i < bytes.len() ==> lower_byte(#[trigger] bytes[i]) == name_bytes[i] {
            assert forall|i: int| 0 <= i < text.len() implies lowered(text)[i] == name[i] by {
                assert(lower_byte(bytes[i]) == name_bytes[i]);
            }
            assert(lowered(text) =~= name);
        }
    }
}

/// A recognized extension holds ASCII letters only.
proof fn lemma_image_extension_is_ascii(extension: Seq<char>)
    ensures
        is_image_extension(extension) ==> vstd::utf8::is_ascii_chars(extension),
{
    if is_image_extension(extension) {
        let name = lowered(extension);
        assert(name.len() == extension.len());
        assert(name.len() <= 4);
        assert forall|i: int| 0 <= i < extension.len() implies '\0' <= #[trigger] extension[i]
            <= '\u{7f}' by {
            assert(name[i] == lower(extension[i]));
            assert('a' <= name[i] && name[i] <= 'z');
        }
    }
}

/// What discovery reads of one entry of a directory walk.
pub struct Entry {
    /// The extension of the last component of the entry's path, where it
    /// has one that is valid Unicode.
    pub extension: Option<String>,
    /// Whether the path leads to a regular file.
    pub is_file: bool,
}

impl Entry {
    /// An image file is a regular file with a recognized extension.
    pub open spec fn is_image_file(&self) -> bool {
        self.is_file && (self.extension matches Some(text) && is_image_extension(text@))
    }
}

/// What a directory walk yields at one step.
pub enum Walked {
    /// An entry that was read.
    Found(Entry),
    /// An entry that could not be read, so many levels below the root of
    /// the walk. The root itself is at depth zero.
    Unreadable { depth: usize },
}

impl Walked {
    /// Whether this step found an image file.
    pub open spec fn is_image_file(&self) -> bool {
        *self matches Walked::Found(entry) && entry.is_image_file()
    }

    /// Whether this step failed on the root of the walk.
    pub open spec fn is_lost_root(&self) -> bool {
        *self matches Walked::Unreadable { depth } && depth == 0
    }
}

/// Whether the root of the walk could not be read.
pub open spec fn root_unreadable(walk: Seq<Walked>) -> bool {
    exists|i: int| 0 <= i < walk.len() && (#[trigger] walk[i]).is_lost_root()
}

/// The positions of the image files in the walk, in ascending order.
pub open spec fn image_positions(walk: Seq<Walked>) -> Seq<int>
    decreases walk.len(),
{
    if walk.len() == 0 {
        Seq::empty()
    } else if walk.last().is_image_file() {
        image_positions(walk.drop_last()).push(walk.len() - 1)
    } else {
        image_positions(walk.drop_last())
    }
}

/// The set of positions at which the walk found an image file.
pub open spec fn image_files(walk: Seq<Walked>) -> Set<int> {
    Set::new(|i: int| 0 <= i < walk.len() && walk[i].is_image_file())
}

/// Picks the image files out of a directory walk: the positions, in the
/// order of the walk, of the entries that are regular files with a
/// recognized extension. An entry below the root that could not be read is
/// passed over. A root that could not be read leaves nothing to discover:
/// the answer is then `None`.
pub fn discover(walk: &Vec<Walked>) -> (found: Option<Vec<usize>>)
    ensures
        found is None <==> root_unreadable(walk@),
        found matches Some(positions) ==> positions@.len() == image_positions(walk@).len()
            && forall|k: int|
            0 <= k < positions@.len() ==> positions@[k] as int == image_positions(walk@)[k],
{
    let mut positions: Vec<usize> = Vec::new();
    let mut i: usize = 0;
    while i < walk.len()
        invariant
            i <= walk@.len(),
            forall|j: int| 0 <= j < i ==> !(#[trigger] walk@[j]).is_lost_root(),
            positions@.len() == image_positions(walk@.take(i as int)).len(),
            forall|k: int|
                0 <= k < positions@.len() ==> positions@[k] as int == image_positions(
                    walk@.take(i as int),
                )[k],
        decreases walk@.len() - i,
    {
        proof {
            let before = walk@.take(i as int);
            let now = walk@.take(i as int + 1);
            assert(now.drop_last() =~= before);
            assert(now.last() == walk@[i as int]);
        }
        match &walk[i] {
            Walked::Found(entry) => {
                let named = match &entry.extension {
                    Some(text) => is_image(Some(text.as_str())),
                    None => false,
                };
                if entry.is_file && named {
                    positions.push(i);
                }
            },
            Walked::Unreadable { depth } => {
                if *depth == 0 {
                    assert(walk@[i as int].is_lost_root());
                    return None;
                }
            },
        }
        i += 1;
    }
    proof {
        assert(walk@.take(i as int) =~= walk@);
    }
    Some(positions)
}

/// Discovery is exact. The positions it gives ascend, so none comes twice;
/// a position is among them if and only if an image file stands there, so
/// no directory, no other file and no unreadable entry is; and they are as
/// many as there are image files.
pub proof fn lemma_discovery_exact(walk: Seq<Walked>)
    ensures
        forall|j: int, k: int|
            0 <= j < k < image_positions(walk).len() ==> image_positions(walk)[j]
                < image_positions(walk)[k],
        forall|i: int| image_positions(walk).contains(i) <==> image_files(walk).contains(i),
        image_files(walk).finite(),
        image_positions(walk).len() == image_files(walk).len(),
    decreases walk.len(),
{
    let positions = image_positions(walk);
    if walk.len() == 0 {
        assert(image_files(walk) =~= Set::empty());
    } else {
        let front = walk.drop_last();
        let last = walk.len() - 1;
        let before = image_positions(front);
        lemma_discovery_exact(front);
        assert forall|k: int| 0 <= k < before.len() implies 0 <= #[trigger] before[k] < last by {
            assert(before.contains(before[k]));
            assert(image_files(front).contains(before[k]));
        }
        if walk.last().is_image_file() {
            assert(image_files(walk) =~= image_files(front).insert(last));
            assert(!image_files(front).contains(last));
            assert forall|i: int| positions.contains(i) <==> image_files(walk).contains(i) by {
                if positions.contains(i) {
                    let k = choose|k: int| 0 <= k < positions.len() && positions[k] == i;
                    if k < before.len() {
                        assert(before.contains(i));
                    }
                }
                if image_files(walk).contains(i) {
                    if i == last {
                        assert(positions[before.len() as int] == last);
                    } else {
                        assert(before.contains(i));
                        let k = choose|k: int| 0 <= k < before.len() && before[k] == i;
                        assert(positions[k] == i);
                    }
                }
            }
        } else {
            assert(image_files(walk) =~= image_files(front));
        }
    }
}

} // verus!
