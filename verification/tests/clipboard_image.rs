use aether_win32::clipboard_image::{
    dib_bytes_to_png, dib_to_rgba, is_image_ext, paste_image_outcome, PasteImageOutcome,
};

fn header(width: i32, height: i32, planes: u16, bpp: u16, compression: u32) -> Vec<u8> {
    let mut h = Vec::new();
    h.extend_from_slice(&40u32.to_le_bytes());
    h.extend_from_slice(&width.to_le_bytes());
    h.extend_from_slice(&height.to_le_bytes());
    h.extend_from_slice(&planes.to_le_bytes());
    h.extend_from_slice(&bpp.to_le_bytes());
    h.extend_from_slice(&compression.to_le_bytes());
    h.resize(40, 0);
    h
}

fn bottom_up_24() -> Vec<u8> {
    let mut d = header(2, 2, 1, 24, 0);
    d.extend_from_slice(&[1, 2, 3, 4, 5, 6, 0, 0]);
    d.extend_from_slice(&[7, 8, 9, 10, 11, 12, 0, 0]);
    d
}

#[test]
fn bottom_up_24_bit_rows_are_flipped_and_opaque() {
    let (px, w, h) = dib_to_rgba(&bottom_up_24()).unwrap();
    assert_eq!((w, h), (2, 2));
    assert_eq!(
        px,
        vec![9, 8, 7, 255, 12, 11, 10, 255, 3, 2, 1, 255, 6, 5, 4, 255]
    );
}

#[test]
fn top_down_32_bit_keeps_order_and_alpha() {
    let mut d = header(1, -2, 1, 32, 0);
    d.extend_from_slice(&[1, 2, 3, 4, 5, 6, 7, 8]);
    let (px, w, h) = dib_to_rgba(&d).unwrap();
    assert_eq!((w, h), (1, 2));
    assert_eq!(px, vec![3, 2, 1, 4, 7, 6, 5, 8]);
}

#[test]
fn unsupported_headers_are_refused() {
    let mut d = header(1, 1, 2, 24, 0);
    d.extend_from_slice(&[0; 4]);
    assert!(dib_to_rgba(&d).is_none());
    let mut d = header(1, 1, 1, 24, 3);
    d.extend_from_slice(&[0; 4]);
    assert!(dib_to_rgba(&d).is_none());
    let mut d = header(1, 1, 1, 16, 0);
    d.extend_from_slice(&[0; 4]);
    assert!(dib_to_rgba(&d).is_none());
    let mut d = header(0, 1, 1, 24, 0);
    d.extend_from_slice(&[0; 4]);
    assert!(dib_to_rgba(&d).is_none());
    let mut d = header(1, 0, 1, 24, 0);
    d.extend_from_slice(&[0; 4]);
    assert!(dib_to_rgba(&d).is_none());
}

#[test]
fn missing_rows_or_header_are_refused() {
    let mut d = bottom_up_24();
    d.pop();
    assert!(dib_to_rgba(&d).is_none());
    assert!(dib_to_rgba(&[0u8; 39]).is_none());
    assert!(dib_bytes_to_png(&[0u8; 10]).is_none());
}

#[test]
fn png_holds_the_decoded_pixels() {
    let png = dib_bytes_to_png(&bottom_up_24()).unwrap();
    assert_eq!(&png[..8], &[137, 80, 78, 71, 13, 10, 26, 10]);
    let img = image::load_from_memory(&png).unwrap().to_rgba8();
    assert_eq!((img.width(), img.height()), (2, 2));
    assert_eq!(
        img.into_raw(),
        vec![9, 8, 7, 255, 12, 11, 10, 255, 3, 2, 1, 255, 6, 5, 4, 255]
    );
}

#[test]
fn image_extensions_in_any_case() {
    assert!(is_image_ext(Some("png")));
    assert!(is_image_ext(Some("JPEG")));
    assert!(is_image_ext(Some("WebP")));
    assert!(is_image_ext(Some("bmp")));
    assert!(!is_image_ext(Some("svg")));
    assert!(!is_image_ext(Some("pngx")));
    assert!(!is_image_ext(Some("")));
    assert!(!is_image_ext(None));
}

#[test]
fn a_clipboard_bitmap_is_attached_first() {
    let (o, m) = paste_image_outcome(Some(Ok("clipboard.png".to_string())), None);
    assert_eq!(o, PasteImageOutcome::Attached);
    assert_eq!(m.unwrap(), "已附加剪贴板图片 clipboard.png，将随下一条消息发送");
    let (o, m) = paste_image_outcome(Some(Err("bad".to_string())), Some(vec![Ok("a.png".to_string())]));
    assert_eq!(o, PasteImageOutcome::Attached);
    assert_eq!(m.unwrap(), "bad");
}

#[test]
fn clipboard_image_files_are_counted() {
    let files = vec![Ok("a.png".to_string()), Err("e1".to_string()), Ok("b.png".to_string())];
    let (o, m) = paste_image_outcome(None, Some(files));
    assert_eq!(o, PasteImageOutcome::Attached);
    assert_eq!(m.unwrap(), "已附加 2 张图片，将随下一条消息发送");
    let (o, m) = paste_image_outcome(None, Some(vec![Err("e1".to_string()), Err("e2".to_string())]));
    assert_eq!(o, PasteImageOutcome::NoImage);
    assert_eq!(m.unwrap(), "e2");
    assert_eq!(paste_image_outcome(None, Some(Vec::new())), (PasteImageOutcome::NoImage, None));
    assert_eq!(paste_image_outcome(None, None), (PasteImageOutcome::NoImage, None));
}
