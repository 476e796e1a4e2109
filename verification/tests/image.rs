use transcoder_core::cascade::image::{image_files, save_image_to_disk, saved_image_note};

#[test]
fn files_of_a_png() {
    let files = image_files("ID", "AAAA", "");
    assert_eq!(files.image_name, "img_ID.png");
    assert_eq!(files.data_url_name, "img_ID.b64.txt");
    assert_eq!(files.data_url, "data:image/png;base64,AAAA");
}

#[test]
fn files_of_a_jpeg() {
    let files = image_files("ID", "", "image/jpeg");
    assert_eq!(files.image_name, "img_ID.jpg");
    assert_eq!(files.data_url, "data:image/jpeg;base64,");
    assert_eq!(image_files("ID", "", "image/jpg").image_name, "img_ID.jpg");
    assert_eq!(image_files("ID", "", "image/JPEG").image_name, "img_ID.png");
    assert_eq!(image_files("ID", "", "image/webp").image_name, "img_ID.png");
    assert_eq!(image_files("ID", "", "image/webp").data_url, "data:image/webp;base64,");
}

#[test]
fn image_is_encoded_in_standard_base64() {
    let files = save_image_to_disk(&[0xfb, 0xff, 0xfe, 0x01], "image/png");
    assert_eq!(files.data_url, "data:image/png;base64,+//+AQ==");
    let files = save_image_to_disk(b"", "image/png");
    assert_eq!(files.data_url, "data:image/png;base64,");
    let files = save_image_to_disk(b"hello", "image/jpg");
    assert_eq!(files.data_url, "data:image/jpg;base64,aGVsbG8=");
}

#[test]
fn data_url_holds_each_character_of_the_alphabet() {
    // Six bits each, counted up from 0 to 63.
    let mut bytes: Vec<u8> = vec![];
    for group in 0..16u32 {
        let first = 4 * group;
        let bits = first << 18 | (first + 1) << 12 | (first + 2) << 6 | (first + 3);
        bytes.extend_from_slice(&bits.to_be_bytes()[1..]);
    }
    assert_eq!(
        save_image_to_disk(&bytes, "").data_url,
        "data:image/png;base64,ABCDEFGHIJKLMNOPQRSTUVWXYZabcdefghijklmnopqrstuvwxyz0123456789+/"
    );
}

#[test]
fn data_url_is_padded_to_groups_of_four() {
    let encodings = ["", "Zg==", "Zm8=", "Zm9v", "Zm9vYg==", "Zm9vYmE=", "Zm9vYmFy"];
    for (length, encoding) in encodings.iter().enumerate() {
        assert_eq!(
            save_image_to_disk(&b"foobar"[..length], "").data_url,
            format!("data:image/png;base64,{}", encoding)
        );
    }
}

#[test]
fn different_images_have_different_data_urls() {
    let images: [&[u8]; 4] = [b"", b"\0", b"\0\0", b"\0\0\0"];
    for (i, one) in images.iter().enumerate() {
        for other in &images[i + 1..] {
            assert_ne!(
                save_image_to_disk(one, "image/png").data_url,
                save_image_to_disk(other, "image/png").data_url
            );
        }
    }
}

#[test]
fn image_gets_a_new_random_identity() {
    let one = save_image_to_disk(b"x", "");
    let two = save_image_to_disk(b"x", "");
    assert_ne!(one.image_name, two.image_name);
    let id = &one.image_name[4..40];
    assert_eq!(one.image_name, format!("img_{}.png", id));
    assert_eq!(one.data_url_name, format!("img_{}.b64.txt", id));
    for (i, c) in id.chars().enumerate() {
        if i == 8 || i == 13 || i == 18 || i == 23 {
            assert_eq!(c, '-');
        } else {
            assert!(matches!(c, '0'..='9' | 'a'..='f'));
        }
    }
    assert_eq!(id.as_bytes()[14], b'4');
    assert!(matches!(id.as_bytes()[19], b'8' | b'9' | b'a' | b'b'));
    assert!(!one.image_name.contains('/'));
}

#[test]
fn note_shows_both_paths() {
    assert_eq!(
        saved_image_note("/d/i.png", "/d/i.b64.txt"),
        "\n\n![Generated Image](/d/i.png)\n\n*(图片亦保存至本地: `/d/i.png`，Base64格式备份于: `/d/i.b64.txt`)*\n\n"
    );
}
