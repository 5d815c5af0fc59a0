use avr_boot::DataPage;

#[test]
fn bytes_pair_up_low_byte_first() {
    let page = DataPage::from_bytes(&[0x34, 0x12, 0xff, 0x00, 0x00, 0xff]);
    assert_eq!(page.words(), &vec![0x1234, 0x00ff, 0xff00]);
    assert_eq!(page.len(), 3);
}

#[test]
fn a_page_of_bytes_reads_as_a_page_of_words() {
    let mut data = [0u8; 256];
    for (n, b) in data.iter_mut().enumerate() {
        *b = if n % 2 == 0 { 0x69 } else { 0x00 };
    }
    let page = DataPage::from_bytes(&data);
    assert_eq!(page, DataPage(vec![0x0069; 128]));
}

#[test]
fn a_byte_without_a_partner_makes_no_word() {
    assert_eq!(DataPage::from_bytes(&[1, 2, 3]).words(), &vec![0x0201]);
    assert_eq!(DataPage::from_bytes(&[1]).len(), 0);
    assert_eq!(DataPage::from_bytes(&[]).len(), 0);
}

#[test]
fn words_make_a_page_as_they_are() {
    let page: DataPage = vec![1u16, 2, 3].into();
    assert_eq!(page.words(), &vec![1, 2, 3]);
    assert_eq!(page, DataPage(vec![1, 2, 3]));
}
