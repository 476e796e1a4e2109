//! Saving a generated image: the files that it goes to, and the note that
//! tells the user.

use vstd::prelude::*;

use crate::text;

verus! {

/// Byte `i` of `data`; behind its end there are zeros.
pub open spec fn byte_at(data: Seq<u8>, i: int) -> int {
    if 0 <= i < data.len() {
        data[i] as int
    } else {
        0
    }
}

/// Group `i` of six bits in `data`, from its first bit on: four groups make up
/// three bytes.
pub open spec fn sextet(data: Seq<u8>, i: int) -> int {
    let first = i / 4 * 3;
    if i % 4 == 0 {
        byte_at(data, first) / 4
    } else if i % 4 == 1 {
        byte_at(data, first) % 4 * 16 + byte_at(data, first + 1) / 16
    } else if i % 4 == 2 {
        byte_at(data, first + 1) % 16 * 4 + byte_at(data, first + 2) / 64
    } else {
        byte_at(data, first + 2) % 64
    }
}

/// The character of the standard alphabet for a group of six bits: capitals,
/// small letters, digits, `+` and `/`.
pub open spec fn symbol(value: int) -> char {
    if value < 26 {
        ('A' as int + value) as char
    } else if value < 52 {
        ('a' as int + value - 26) as char
    } else if value < 62 {
        ('0' as int + value - 52) as char
    } else if value == 62 {
        '+'
    } else {
        '/'
    }
}

/// The standard base64 of `data`, with padding: a character for each group of
/// six bits that holds a bit of `data`, and `=` up to a multiple of four.
pub open spec fn base64_standard(data: Seq<u8>) -> Seq<char> {
    Seq::new(
        ((data.len() + 2) / 3 * 4) as nat,
        |i: int|
            if 6 * i < 8 * data.len() {
                symbol(sextet(data, i))
            } else {
                '='
            },
    )
}

/// `c` is a lower-case hexadecimal digit.
pub open spec fn is_hex_digit(c: char) -> bool {
    '0' <= c <= '9' || 'a' <= c <= 'f'
}

/// `s` is a random UUID in lower case, with hyphens.
pub open spec fn is_random_uuid(s: Seq<char>) -> bool {
    &&& s.len() == 36
    &&& forall|i: int|
        0 <= i < 36 ==> if i == 8 || i == 13 || i == 18 || i == 23 {
            #[trigger] s[i] == '-'
        } else {
            is_hex_digit(s[i])
        }
    &&& s[14] == '4'
    &&& s[19] == '8' || s[19] == '9' || s[19] == 'a' || s[19] == 'b'
}

/// The MIME type of an image; an image without one counts as PNG.
pub open spec fn mime_text(mime_type: Seq<char>) -> Seq<char> {
    if mime_type.len() == 0 {
        "image/png"@
    } else {
        mime_type
    }
}

/// The file extension for a MIME type.
pub open spec fn extension_text(mime: Seq<char>) -> Seq<char> {
    if text::contains(mime, "jpeg"@) || text::contains(mime, "jpg"@) {
        "jpg"@
    } else {
        "png"@
    }
}

/// The name of the image file.
pub open spec fn image_name_text(id: Seq<char>, mime: Seq<char>) -> Seq<char> {
    "img_"@ + id + "."@ + extension_text(mime)
}

/// The name of the file that holds the image as a data URL.
pub open spec fn data_url_name_text(id: Seq<char>) -> Seq<char> {
    "img_"@ + id + ".b64.txt"@
}

/// The data URL of an image.
pub open spec fn data_url_text(mime: Seq<char>, encoded: Seq<char>) -> Seq<char> {
    "data:"@ + mime + ";base64,"@ + encoded
}

/// The files that an image goes to.
#[derive(Debug, PartialEq, Eq)]
pub struct ImageFiles {
    /// The file for the image itself.
    pub image_name: String,
    /// The file for its data URL.
    pub data_url_name: String,
    pub data_url: String,
}

impl ImageFiles {
    /// These are the files of an image with the given identity and encoding.
    pub open spec fn are_for(self, id: Seq<char>, encoded: Seq<char>, mime_type: Seq<char>) -> bool {
        let mime = mime_text(mime_type);
        &&& self.image_name@ == image_name_text(id, mime)
        &&& self.data_url_name@ == data_url_name_text(id)
        &&& self.data_url@ == data_url_text(mime, encoded)
    }
}

/// Calls `uuid::Uuid::new_v4` and writes the UUID out: whatever the random bits
/// are, 36 lower-case hexadecimal digits and hyphens, with the version and the
/// variant of a random UUID. It panics where the system gives no random bits.
#[verifier::external_body]
fn new_file_id() -> (id: String)
    ensures
        is_random_uuid(id@),
{
    uuid::Uuid::new_v4().to_string()
}

/// Calls `base64::Engine::encode` on `base64::engine::general_purpose::STANDARD`,
/// which has the standard alphabet and pads: the result is the standard base64
/// of the bytes. The encoding must not be longer than a string can be.
#[verifier::external_body]
fn encode_base64(data: &[u8]) -> (encoded: String)
    requires
        (data@.len() + 2) / 3 * 4 <= isize::MAX,
    ensures
        encoded@ == base64_standard(data@),
{
    base64::Engine::encode(&base64::engine::general_purpose::STANDARD, data)
}

/// The files of an image with the given identity and encoding.
pub fn image_files(file_id: &str, encoded: &str, mime_type: &str) -> (files: ImageFiles)
    ensures
        files.are_for(file_id@, encoded@, mime_type@),
{
    let mime = if mime_type.is_empty() {
        "image/png"
    } else {
        mime_type
    };
    let extension = if text::has(mime, "jpeg") || text::has(mime, "jpg") {
        "jpg"
    } else {
        "png"
    };
    let mut image_name = "img_".to_owned();
    image_name.append(file_id);
    image_name.append(".");
    image_name.append(extension);
    let mut data_url_name = "img_".to_owned();
    data_url_name.append(file_id);
    data_url_name.append(".b64.txt");
    let mut data_url = "data:".to_owned();
    data_url.append(mime);
    data_url.append(";base64,");
    data_url.append(encoded);
    ImageFiles { image_name, data_url_name, data_url }
}

/// The files that an image is to be saved in, under a new identity.
pub fn save_image_to_disk(image_data: &[u8], mime_type: &str) -> (files: ImageFiles)
    requires
        (image_data@.len() + 2) / 3 * 4 <= isize::MAX,
    ensures
        exists|id: Seq<char>| #[trigger]
            is_random_uuid(id) && files.are_for(id, base64_standard(image_data@), mime_type@),
{
    let file_id = new_file_id();
    let encoded = encode_base64(image_data);
    image_files(file_id.as_str(), encoded.as_str(), mime_type)
}

/// The note that shows a saved image, by the paths of its files.
pub fn saved_image_note(image_path: &str, data_url_path: &str) -> (note: String)
    ensures
        note@ == "\n\n![Generated Image]("@ + image_path@ + ")\n\n*(图片亦保存至本地: `"@
            + image_path@ + "`，Base64格式备份于: `"@ + data_url_path@ + "`)*\n\n"@,
{
    let mut note = "\n\n![Generated Image](".to_owned();
    note.append(image_path);
    note.append(")\n\n*(图片亦保存至本地: `");
    note.append(image_path);
    note.append("`，Base64格式备份于: `");
    note.append(data_url_path);
    note.append("`)*\n\n");
    note
}

/// Two groups of six bits have the same character only where they are the same,
/// and no group has the character of the padding.
proof fn lemma_symbols(a: int, b: int)
    requires
        0 <= a < 64,
        0 <= b < 64,
    ensures
        symbol(a) == symbol(b) ==> a == b,
        symbol(a) != '=',
{
}

/// A byte, put together from the groups of six bits that hold its bits.
spec fn rebuilt(data: Seq<u8>, i: int) -> int {
    let first = i / 3 * 4;
    if i % 3 == 0 {
        sextet(data, first) * 4 + sextet(data, first + 1) / 16
    } else if i % 3 == 1 {
        sextet(data, first + 1) % 16 * 16 + sextet(data, first + 2) / 4
    } else {
        sextet(data, first + 2) % 4 * 64 + sextet(data, first + 3)
    }
}

/// Each byte can be had back from the groups of six bits.
proof fn lemma_rebuilt(data: Seq<u8>, i: int)
    requires
        0 <= i < data.len(),
    ensures
        rebuilt(data, i) == data[i],
{
}

/// Where two encodings are the same, the groups of six bits in them are.
proof fn lemma_same_sextet(a: Seq<u8>, b: Seq<u8>, i: int)
    requires
        base64_standard(a) == base64_standard(b),
        0 <= i,
        6 * i < 8 * a.len(),
    ensures
        6 * i < 8 * b.len(),
        sextet(a, i) == sextet(b, i),
{
    let x = base64_standard(a);
    let y = base64_standard(b);
    assert(i < x.len() == y.len());
    assert(x[i] == symbol(sextet(a, i)));
    assert(y[i] == if 6 * i < 8 * b.len() { symbol(sextet(b, i)) } else { '=' });
    lemma_symbols(sextet(a, i), sextet(b, i));
}

/// The data URL is a full backup: images of one type have the same data URL only
/// where they are the same, byte for byte.
pub proof fn law_data_url_keeps_the_image(mime: Seq<char>, a: Seq<u8>, b: Seq<u8>)
    requires
        data_url_text(mime, base64_standard(a)) == data_url_text(mime, base64_standard(b)),
    ensures
        a == b,
{
    let x = base64_standard(a);
    let y = base64_standard(b);
    let head = "data:"@ + mime + ";base64,"@;
    assert((head + x).skip(head.len() as int) == x);
    assert((head + y).skip(head.len() as int) == y);
    assert(a.len() == b.len()) by {
        if a.len() > b.len() {
            lemma_same_sextet(a, b, (8 * a.len() - 1) / 6);
        } else if b.len() > a.len() {
            lemma_same_sextet(b, a, (8 * b.len() - 1) / 6);
        }
    }
    assert forall|i: int| 0 <= i < a.len() implies a[i] == b[i] by {
        lemma_rebuilt(a, i);
        lemma_rebuilt(b, i);
        let first = i / 3 * 4 + i % 3;
        lemma_same_sextet(a, b, first);
        lemma_same_sextet(a, b, first + 1);
    }
}

/// The files of an image stay in the directory that they are put in: their
/// names hold no path separator, and differ from each other.
pub proof fn law_image_files_stay_in_their_directory(id: Seq<char>, mime_type: Seq<char>)
    requires
        is_random_uuid(id),
    ensures
        ({
            let image = image_name_text(id, mime_text(mime_type));
            let data_url = data_url_name_text(id);
            &&& !image.contains('/') && !image.contains('\\')
            &&& !data_url.contains('/') && !data_url.contains('\\')
            &&& image != data_url
        }),
{
    reveal_strlit("img_");
    reveal_strlit(".");
    reveal_strlit("jpg");
    reveal_strlit("png");
    reveal_strlit(".b64.txt");
}

/// `files` are named after `id`, with the extension of a JPEG where the MIME type
/// names one and else that of a PNG, and the data URL has the MIME type, which is
/// that of a PNG where none is given, and the whole encoding.
pub open spec fn fit_image(
    files: ImageFiles,
    id: Seq<char>,
    encoded: Seq<char>,
    mime_type: Seq<char>,
) -> bool {
    &&& files.image_name@ == "img_"@ + id + (if text::has_stretch(mime_type, "jpeg"@)
        || text::has_stretch(mime_type, "jpg"@) {
        ".jpg"@
    } else {
        ".png"@
    })
    &&& files.data_url_name@ == "img_"@ + id + ".b64.txt"@
    &&& mime_type.len() > 0 ==> files.data_url@ == "data:"@ + mime_type + ";base64,"@ + encoded
    &&& mime_type.len() == 0 ==> files.data_url@ == "data:image/png;base64,"@ + encoded
}

/// Files for an image fit it.
proof fn lemma_fit(files: ImageFiles, id: Seq<char>, encoded: Seq<char>, mime_type: Seq<char>)
    requires
        files.are_for(id, encoded, mime_type),
    ensures
        fit_image(files, id, encoded, mime_type),
{
    let mime = mime_text(mime_type);
    reveal_strlit(".");
    reveal_strlit("jpg");
    reveal_strlit("png");
    reveal_strlit(".jpg");
    reveal_strlit(".png");
    assert("img_"@ + id + "."@ + "jpg"@ == "img_"@ + id + ".jpg"@);
    assert("img_"@ + id + "."@ + "png"@ == "img_"@ + id + ".png"@);
    text::law_stretches_are_contained(mime, "jpeg"@);
    text::law_stretches_are_contained(mime, "jpg"@);
    if mime_type.len() == 0 {
        reveal_strlit("jpeg");
        reveal_strlit("image/png");
        reveal_strlit("data:");
        reveal_strlit(";base64,");
        reveal_strlit("data:image/png;base64,");
        assert("data:"@ + mime + ";base64,"@ == "data:image/png;base64,"@);
        assert forall|k: int| 0 <= k <= mime.len() - 4 implies #[trigger] mime.subrange(k, k + 4)
            != "jpeg"@ by {
            assert(mime.subrange(k, k + 4)[0] == mime[k]);
        }
        assert forall|k: int| 0 <= k <= mime.len() - 3 implies #[trigger] mime.subrange(k, k + 3)
            != "jpg"@ by {
            assert(mime.subrange(k, k + 3)[0] == mime[k]);
        }
    }
}

/// The files of an image fit its identity, its encoding and its type.
pub proof fn law_files_fit_the_image(
    file_id: &str,
    encoded: &str,
    mime_type: &str,
    files: ImageFiles,
)
    requires
        call_ensures(image_files, (file_id, encoded, mime_type), files),
    ensures
        fit_image(files, file_id@, encoded@, mime_type@),
{
    lemma_fit(files, file_id@, encoded@, mime_type@);
}

/// An image is saved under a random identity, and its data URL holds all of it.
pub proof fn law_image_is_saved_whole(image_data: &[u8], mime_type: &str, files: ImageFiles)
    requires
        call_ensures(save_image_to_disk, (image_data, mime_type), files),
    ensures
        exists|id: Seq<char>| #[trigger]
            is_random_uuid(id) && fit_image(
                files,
                id,
                base64_standard(image_data@),
                mime_type@,
            ),
{
    let id = choose|id: Seq<char>| #[trigger]
        is_random_uuid(id) && files.are_for(id, base64_standard(image_data@), mime_type@);
    lemma_fit(files, id, base64_standard(image_data@), mime_type@);
}

/// The note shows the image and names both files, as they are.
pub proof fn law_note_names_both_files(image_path: &str, data_url_path: &str, note: String)
    requires
        call_ensures(saved_image_note, (image_path, data_url_path), note),
    ensures
        note@ == "\n\n![Generated Image]("@ + image_path@ + ")\n\n*(图片亦保存至本地: `"@
            + image_path@ + "`，Base64格式备份于: `"@ + data_url_path@ + "`)*\n\n"@,
{
}

} // verus!
