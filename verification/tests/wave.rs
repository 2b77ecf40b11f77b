use vsm::wave::{float_format, header, le, samples, Scan, WaveError, WaveReader, WaveWriter};

#[test]
fn rf64_boundary() {
    let f = float_format(2);
    let h = header(&f, 8, 600_000_000).unwrap();
    assert_eq!(&h[..4], b"RF64");
    assert_eq!(le(&h[28..36]), 4_800_000_000);
    assert!(header(&f, 8, u64::MAX).is_err());
}

fn pattern(values: &[f32]) -> Vec<u32> {
    values.iter().map(|v| v.to_bits()).collect()
}

fn recorded(channels: u16, values: &[f32]) -> Vec<u8> {
    let mut w = WaveWriter::create(channels).unwrap();
    let data = w.bytes(&pattern(values)).unwrap();
    w.append(&pattern(values), true).unwrap();
    let (mut file, end) = w.flush().unwrap();
    file.extend_from_slice(&data);
    assert_eq!(file.len() as u64, end);
    file
}

#[test]
fn recordings_survive_their_files() {
    let values = [0.5, -0.25, 1.0, -1.0, 0.0, 0.125];
    let file = recorded(2, &values);
    let reader = WaveReader::open(&file).unwrap();
    assert_eq!((reader.frames, reader.channels, reader.sample_rate), (3, 2, 48000));
    let (offset, bytes) = reader.read(1, 2).unwrap();
    let offset = offset as usize;
    assert_eq!(samples(&file[offset..offset + bytes]), pattern(&values[2..]));
    assert_eq!(reader.read(2, 2), Err(WaveError::Range));
}

#[test]
fn headers_have_known_bytes() {
    let h = header(&float_format(1), 4, 2).unwrap();
    assert_eq!(&h[..4], b"RIFF");
    assert_eq!(&h[8..12], b"WAVE");
    assert_eq!(le(&h[4..8]) as usize, h.len() + 8 - 8);
    let at = h.len() - 8;
    assert_eq!(&h[at..at + 4], b"data");
    assert_eq!(le(&h[at + 4..]), 8);
}

#[test]
fn writers_take_whole_frames() {
    let mut w = WaveWriter::create(2).unwrap();
    assert_eq!(w.bytes(&pattern(&[1.0])).unwrap_err(), WaveError::Unaligned);
    assert_eq!(w.append(&pattern(&[1.0]), true), Err(WaveError::Unaligned));
    assert_eq!(w.bytes(&pattern(&[1.0, 2.0])).unwrap().len(), 8);
    assert_eq!(w.append(&pattern(&[1.0, 2.0]), true), Ok(()));
    assert_eq!(w.frames(), 1);
    let sealed = w.flush().unwrap();
    assert_eq!(w.append(&pattern(&[1.0, 2.0]), false), Err(WaveError::Unwritten));
    assert_eq!((w.frames(), w.flush().unwrap()), (1, sealed));
    assert!(WaveWriter::create(0).is_err());
}

#[test]
fn broken_files_are_refused() {
    let refused = |file: &[u8]| WaveReader::open(file).unwrap_err();
    let good = recorded(2, &[0.5, -0.5]);
    assert!(WaveReader::open(&good).is_ok());
    assert_eq!(refused(b"RIFF"), WaveError::Head);
    assert_eq!(refused(b"RIFX\0\0\0\0WAVE"), WaveError::Head);
    assert_eq!(refused(&good[..good.len() - 1]), WaveError::Unsealed);
    let mut odd = good.clone();
    let fmt = odd.windows(4).position(|w| w == b"fmt ").unwrap();
    odd[fmt + 8 + 4] = 0;
    assert_eq!(refused(&odd), WaveError::Format);
    let empty = recorded(2, &[]);
    assert!(WaveReader::open(&empty).is_err());
}

#[test]
fn files_can_be_scanned_chunk_by_chunk() {
    let file = recorded(1, &[0.5, 0.25]);
    let mut scan = Scan::begin(file.len() as u64, &file[..12]).unwrap();
    while let Some(at) = scan.next().unwrap() {
        let at = at as usize;
        let ch = &file[at..at + 8];
        let n = scan.body(ch).unwrap() as usize;
        scan.step(ch, &file[at + 8..at + 8 + n]).unwrap();
    }
    let reader = scan.finish().unwrap();
    assert_eq!(reader, WaveReader::open(&file).unwrap());
}

#[test]
fn damaged_files_are_refused() {
    let good = recorded(2, &[0.5, -0.5, 0.25, 0.75]);
    for n in 0..good.len() {
        assert!(WaveReader::open(&good[..n]).is_err(), "{n}");
    }
    let mut longer = good.clone();
    longer.push(0);
    assert_eq!(WaveReader::open(&longer), Err(WaveError::Unsealed));
    assert_eq!(WaveReader::open(&recorded(2, &[])), Err(WaveError::Missing));
    let wide = header(&float_format(2), 8, 600_000_000).unwrap();
    assert!(WaveReader::open(&wide).is_err());
}
