use posixutils::dd::{
    apply_conversions, convert_ascii, convert_block, convert_lcase, convert_swab, convert_sync,
    convert_ucase, convert_unblock, parse_block_size, parse_cmdline, parse_conv_list, AsciiConv,
    Config, Conversion, DdError,
};

#[test]
fn case_conversions_fold_ascii_letters() {
    let mut data = b"Hello, World! 123".to_vec();
    convert_lcase(&mut data);
    assert_eq!(data, b"hello, world! 123".to_vec());
    convert_ucase(&mut data);
    assert_eq!(data, b"HELLO, WORLD! 123".to_vec());
}

#[test]
fn swab_exchanges_adjacent_bytes() {
    let mut data = vec![1u8, 2, 3, 4, 5];
    convert_swab(&mut data);
    assert_eq!(data, vec![2u8, 1, 4, 3, 5]);
}

#[test]
fn sync_pads_short_blocks_with_zero_bytes() {
    let mut data = vec![9u8, 8];
    convert_sync(&mut data, 4);
    assert_eq!(data, vec![9u8, 8, 0, 0]);
    convert_sync(&mut data, 2);
    assert_eq!(data, vec![9u8, 8, 0, 0]);
}

#[test]
fn ascii_ebcdic_letters_round_trip() {
    let mut data = b"A".to_vec();
    convert_ascii(&mut data, &AsciiConv::Ebcdic);
    assert_eq!(data, vec![0xC1u8]);
    convert_ascii(&mut data, &AsciiConv::Ascii);
    assert_eq!(data, vec![0x41u8]);
}

#[test]
fn block_pads_each_line_to_the_record_size() {
    let mut data = b"he\nlong line\n".to_vec();
    convert_block(&mut data, 4);
    assert_eq!(data, b"he  long".to_vec());
    let mut tail = b"ab".to_vec();
    convert_block(&mut tail, 4);
    assert_eq!(tail, b"ab  ".to_vec());
}

#[test]
fn unblock_trims_records_and_appends_newlines() {
    let mut data = b"he  long".to_vec();
    convert_unblock(&mut data, 4);
    assert_eq!(data, b"he\nlong\n".to_vec());
}

#[test]
fn conversions_apply_in_order() {
    let mut config = Config::default();
    config.conversions.push(Conversion::Lcase);
    config.conversions.push(Conversion::Swab);
    let mut data = b"AB".to_vec();
    apply_conversions(&mut data, &config);
    assert_eq!(data, b"ba".to_vec());
}

#[test]
fn block_size_suffixes_scale_the_number() {
    assert_eq!(parse_block_size("512"), Ok(512));
    assert_eq!(parse_block_size("1k"), Ok(1024));
    assert_eq!(parse_block_size("2w"), Ok(4));
    assert_eq!(parse_block_size("3b"), Ok(1536));
    assert_eq!(parse_block_size("1m"), Ok(1048576));
    assert_eq!(parse_block_size("1x"), Err(DdError::InvalidBlockSizeSuffix));
    assert_eq!(parse_block_size("k"), Err(DdError::InvalidNumber));
    assert_eq!(parse_block_size("9z"), Err(DdError::InvalidBlockSizeSuffix));
}

#[test]
fn conv_lists_accumulate_conversions_and_flags() {
    let mut config = Config::default();
    parse_conv_list(&mut config, "lcase,swab,noerror").unwrap();
    assert_eq!(config.conversions, vec![Conversion::Lcase, Conversion::Swab]);
    assert!(config.noerror);
    assert!(!config.notrunc);
    assert_eq!(
        parse_conv_list(&mut config, "bogus"),
        Err(DdError::InvalidConvOption)
    );
}

#[test]
fn cmdline_options_fill_the_config() {
    let args = vec![
        "if=in.bin".to_string(),
        "of=out.bin".to_string(),
        "bs=1k".to_string(),
        "count=3".to_string(),
        "conv=ucase".to_string(),
    ];
    let config = parse_cmdline(&args).unwrap();
    assert_eq!(config.ifile, "in.bin".to_string());
    assert_eq!(config.ofile, "out.bin".to_string());
    assert_eq!(config.ibs, 1024);
    assert_eq!(config.obs, 1024);
    assert_eq!(config.count, 3);
    assert_eq!(config.conversions, vec![Conversion::Ucase]);
}

#[test]
fn cmdline_rejects_arguments_without_equals() {
    let args = vec!["sync".to_string()];
    assert!(matches!(parse_cmdline(&args), Err(DdError::InvalidOption)));
}
