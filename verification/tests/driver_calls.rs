use lightshow::pawnio::{self, LoadStep, Module, SleepMode, SmbusXfer};

#[test]
fn statuses_are_checked() {
    assert_eq!(pawnio::check(0, "pawnio_open"), Ok(()));
    assert_eq!(
        pawnio::check(-2147024891, "pawnio_open"),
        Err("pawnio_open failed: HRESULT = 0x80070005 (E_ACCESSDENIED — run from an elevated/Administrator shell)".to_string())
    );
    assert_eq!(
        pawnio::check(1, "pawnio_load"),
        Err("pawnio_load failed: HRESULT = 0x00000001".to_string())
    );
    assert_eq!(
        pawnio::check(-1, "x"),
        Err("x failed: HRESULT = 0xFFFFFFFF".to_string())
    );
}

#[test]
fn calls_of_the_module() {
    let c = Module::identity();
    assert_eq!((c.name, c.input, c.output_len), ("ioctl_identity", vec![0], 3));
    let c = Module::set_sleep_mode(SleepMode::AlwaysSleep);
    assert_eq!((c.name, c.input, c.output_len), ("ioctl_set_sleep_mode", vec![2], 0));
    assert_eq!(SleepMode::AlwaysBusy.code(), 0);
    assert_eq!(SleepMode::ShortBusy.code(), 1);
    let c = Module::piix4_port_sel(1);
    assert_eq!((c.name, c.input, c.output_len), ("ioctl_piix4_port_sel", vec![1], 1));
}

#[test]
fn transactions_are_packed_into_words() {
    let mut data = [0u8; 32];
    for (i, b) in data.iter_mut().enumerate() {
        *b = i as u8;
    }
    let c = Module::smbus_xfer(0x39, 1, 0x81, 2, &data);
    assert_eq!(c.name, "ioctl_smbus_xfer");
    assert_eq!(c.output_len, 5);
    assert_eq!(
        c.input,
        vec![
            0x39,
            1,
            0x81,
            2,
            0x0706_0504_0302_0100,
            0x0F0E_0D0C_0B0A_0908,
            0x1716_1514_1312_1110,
            0x1F1E_1D1C_1B1A_1918,
            0,
        ]
    );
    // What was packed comes out again.
    let words = [c.input[4], c.input[5], c.input[6], c.input[7], 99];
    assert_eq!(Module::smbus_data(&words), data.to_vec());
}

#[test]
fn bytes_and_words_are_written() {
    assert_eq!(Module::write_byte_data(0x39, 0x01, 0xAB).input, vec![0x39, 0, 1, 2, 0xAB, 0, 0, 0, 0]);
    assert_eq!(Module::write_word_data(0x39, 0x00, 0x2180).input, vec![0x39, 0, 0, 3, 0x2180, 0, 0, 0, 0]);
    assert_eq!(Module::read_byte_data(0x39, 0x81).input, vec![0x39, 1, 0x81, 2, 0, 0, 0, 0, 0]);
}

#[test]
fn transactions_become_requests_and_replies() {
    let read = SmbusXfer::ReadByte { addr: 0x39, command: 0x81 };
    let write = SmbusXfer::WriteByte { addr: 0x39, command: 1, value: 7 };
    let word = SmbusXfer::WriteWord { addr: 0x39, command: 0, word: 0x1234 };
    assert_eq!(read.request().input, Module::read_byte_data(0x39, 0x81).input);
    assert_eq!(write.request().input, Module::write_byte_data(0x39, 1, 7).input);
    assert_eq!(word.request().input, Module::write_word_data(0x39, 0, 0x1234).input);
    // A reply is error code, byte, low word, high word, length.
    assert_eq!(read.reply(0, &[0, 0xABCD, 0x11, 0x22, 1]), Ok(0xCD));
    assert_eq!(write.reply(0, &[0, 0xABCD, 0, 0, 0]), Ok(0));
    assert_eq!(read.reply(-5, &[0, 0xABCD, 0, 0, 0]), Err(-5));
    for x in [read, write, word] {
        assert_eq!(x.reply(7, &[0, 0xABCD, 0, 0, 0]), Err(7));
        assert_eq!(x.reply(0x8000_4005u32 as i32, &[7, 0, 0, 0, 0]), Err(0x8000_4005u32 as i32));
    }
    // The call's status alone tells success from failure.
    assert_eq!(read.reply(0, &[7, 0xABCD, 0, 0, 0]), Ok(0xCD));
    assert_eq!(write.reply(0, &[0xC000_0001, 0, 0, 0, 0]), Ok(0));
    assert_eq!(word.reply(0, &[1 << 32, 0xABCD, 0, 0, 0]), Ok(0));
}

#[test]
fn the_library_is_looked_for_in_three_places() {
    let mut failures: Vec<String> = Vec::new();
    let mut tried = Vec::new();
    let message = loop {
        match pawnio::next_candidate(&failures) {
            LoadStep::Try(path) => {
                tried.push(path);
                failures.push(format!("not at {}", path));
            }
            LoadStep::GiveUp(message) => break message,
        }
    };
    assert_eq!(
        tried,
        vec![
            "PawnIOLib.dll",
            r"C:\Program Files\PawnIO\PawnIOLib.dll",
            r"C:\Program Files (x86)\PawnIO\PawnIOLib.dll",
        ]
    );
    assert_eq!(
        message,
        r"load PawnIOLib.dll (is PawnIO installed? https://pawnio.eu): not at C:\Program Files (x86)\PawnIO\PawnIOLib.dll"
    );
    assert_eq!(
        pawnio::missing_export("pawnio_open"),
        "PawnIOLib.dll missing export `pawnio_open`"
    );
}
