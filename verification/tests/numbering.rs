use mdx::common::numbering::{int_to_roman, list_prefix, number_to_chinese, number_to_uppercase_letter};

#[test]
fn chinese_numbers() {
    assert_eq!(number_to_chinese(1), "一");
    assert_eq!(number_to_chinese(10), "十");
    assert_eq!(number_to_chinese(11), "十一");
    assert_eq!(number_to_chinese(20), "二十");
    assert_eq!(number_to_chinese(25), "二十五");
    assert_eq!(number_to_chinese(99), "九十九");
    assert_eq!(number_to_chinese(100), "100");
}

#[test]
fn roman_numerals() {
    assert_eq!(int_to_roman(1), "I");
    assert_eq!(int_to_roman(4), "IV");
    assert_eq!(int_to_roman(9), "IX");
    assert_eq!(int_to_roman(40), "XL");
    assert_eq!(int_to_roman(2024), "MMXXIV");
}

#[test]
fn excel_columns() {
    assert_eq!(number_to_uppercase_letter(1), "A");
    assert_eq!(number_to_uppercase_letter(26), "Z");
    assert_eq!(number_to_uppercase_letter(27), "AA");
    assert_eq!(number_to_uppercase_letter(52), "AZ");
    assert_eq!(number_to_uppercase_letter(53), "BA");
}

#[test]
fn list_prefix_levels() {
    assert_eq!(list_prefix(1, 1), "①");
    assert_eq!(list_prefix(2, 1), "⑴");
    assert_eq!(list_prefix(3, 1), "a.");
    assert_eq!(list_prefix(3, 27), "a.");
    assert_eq!(list_prefix(4, 4), "IV.");
    assert_eq!(list_prefix(5, 1), "(A)");
    assert_eq!(list_prefix(6, 7), "7)");
}

#[test]
fn list_prefix_falls_back_after_twenty() {
    assert_eq!(list_prefix(1, 20), "⑳");
    assert_eq!(list_prefix(1, 21), "(21)");
    assert_eq!(list_prefix(2, 20), "⒇");
    assert_eq!(list_prefix(2, 21), "(21)");
    assert_eq!(list_prefix(7, 1), "");
    assert_eq!(int_to_roman(0), "");
    assert_eq!(number_to_uppercase_letter(0), "");
    assert_eq!(number_to_chinese(0), "0");
}
