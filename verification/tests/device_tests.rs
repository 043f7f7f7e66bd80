use gent_kern::fw_cfg::{
    directory_count, dma_control, dma_packet, dma_status, fill_dma_buffer, parse_directory, DmaStatus, Error, FwCfg,
    FwCfgFile, DMA_OFFSET, DMA_READ, DMA_SELECT, DMA_WRITE, FILE_DIR_SELECTOR, SEL_OFFSET,
};
use gent_kern::global::{IOTransit as PortTransit, IOType};
use gent_kern::power::Syscon;
use gent_kern::transit::IOTransit;
use gent_kern::uart::Uart16550;

fn entry_bytes(size: u32, select: u16, name: &str) -> Vec<u8> {
    let mut v = Vec::new();
    v.extend_from_slice(&size.to_be_bytes());
    v.extend_from_slice(&select.to_be_bytes());
    v.extend_from_slice(&[0, 0]);
    let mut n = [0u8; 56];
    n[..name.len()].copy_from_slice(name.as_bytes());
    v.extend_from_slice(&n);
    v
}

#[test]
fn file_entry_decoding() {
    let bytes = entry_bytes(28, 0x25, "etc/ramfb");
    let f = FwCfgFile::from_bytes(&bytes, 0);
    assert_eq!(f.size(), 28);
    assert_eq!(f.sel(), 0x25);
    assert_eq!(f.name(), Some("etc/ramfb"));
    assert_eq!(f.name_bytes(), b"etc/ramfb");
}

#[test]
fn file_name_that_is_not_utf8() {
    let mut bytes = entry_bytes(1, 2, "ab");
    bytes[9] = 0xff;
    let f = FwCfgFile::from_bytes(&bytes, 0);
    assert_eq!(f.name(), None);
    assert_eq!(f.name_bytes(), &[b'a', 0xff]);
}

#[test]
fn file_name_filling_the_field() {
    let long: String = std::iter::repeat('x').take(56).collect();
    let bytes = entry_bytes(3, 4, &long);
    assert_eq!(FwCfgFile::from_bytes(&bytes, 0).name(), Some(long.as_str()));
}

#[test]
fn directory_parsing_and_lookup() {
    let mut entries = entry_bytes(10, 0x20, "opt/a");
    entries.extend(entry_bytes(28, 0x25, "etc/ramfb"));
    entries.extend(entry_bytes(5, 0x26, "etc/ramfb"));
    let count = directory_count(&3u32.to_be_bytes());
    assert_eq!(count, 3);
    let files = parse_directory(count, &entries);
    assert_eq!(files.len(), 3);
    assert_eq!(files[1].sel(), 0x25);
    let mut cfg = FwCfg::new(0x1000_0000);
    assert_eq!(cfg.location(), 0x1000_0000);
    assert!(cfg.files().is_none());
    assert!(cfg.lookup("etc/ramfb").is_none());
    cfg.load_files(&3u32.to_be_bytes(), &entries);
    assert_eq!(cfg.files().unwrap().len(), 3);
    let found = cfg.lookup("etc/ramfb").unwrap();
    assert_eq!(found.sel(), 0x25);
    assert_eq!(found.size(), 28);
    assert!(cfg.lookup("etc/ramf").is_none());
    assert!(cfg.lookup("missing").is_none());
    cfg.load_files(&0u32.to_be_bytes(), &[]);
    assert_eq!(cfg.files().unwrap().len(), 3);
    // Once loaded, the directory is kept whatever bytes come later.
    cfg.load_files(&[], &[]);
    assert_eq!(cfg.files().unwrap().len(), 3);
    assert_eq!(cfg.files().unwrap()[2].sel(), 0x26);
}

#[test]
fn file_commands() {
    let found = FwCfgFile::from_bytes(&entry_bytes(28, 0x25, "etc/ramfb"), 0);
    assert_eq!(
        found.write_packet(0x8000_1000),
        vec![0, 0x25, 0, 0x18, 0, 0, 0, 28, 0, 0, 0, 0, 0x80, 0, 0x10, 0]
    );
    assert_eq!(
        found.read_packet(0x1_2345_6000),
        vec![0, 0x25, 0, 0x0a, 0, 0, 0, 28, 0, 0, 0, 1, 0x23, 0x45, 0x60, 0]
    );
}

#[test]
fn dma_commands() {
    assert_eq!(dma_control(Some(0x25), DMA_SELECT | DMA_WRITE), 0x0025_0018);
    assert_eq!(dma_control(None, DMA_READ), 2);
    let p = dma_packet(Some(0x25), DMA_SELECT | DMA_WRITE, 28, 0x8000_1000);
    assert_eq!(p, vec![0, 0x25, 0, 0x18, 0, 0, 0, 28, 0, 0, 0, 0, 0x80, 0, 0x10, 0]);
    assert_eq!(dma_status(0), DmaStatus::Done);
    assert_eq!(dma_status(1), DmaStatus::Failed);
    assert_eq!(dma_status(0x19), DmaStatus::Failed);
    assert_eq!(dma_status(0x18), DmaStatus::Pending);
    assert_eq!((DMA_OFFSET, SEL_OFFSET, FILE_DIR_SELECTOR), (16, 8, 0x19));
    assert_ne!(Error::BadPointer, Error::DmaError);
}

#[test]
fn dma_buffer_fill() {
    let mut dma = vec![9u8; 5];
    fill_dma_buffer(&mut dma, &[1, 2, 3]);
    assert_eq!(dma, vec![1, 2, 3, 9, 9]);
    let mut short = vec![7u8; 2];
    fill_dma_buffer(&mut short, &[1, 2, 3]);
    assert_eq!(short, vec![1, 2]);
}

#[test]
fn io_channels() {
    assert_eq!(IOType::Port(0x3f8).loc(), 0x3f8);
    assert_eq!(IOType::Mem(0x1000).loc(), 0x1000);
    assert_eq!(IOType::Mem(0x1000).offset(8), IOType::Mem(0x1008));
    let mut t = PortTransit::new(IOType::Port(0x60));
    assert_eq!(t.iotype(), IOType::Port(0x60));
    t.set_loc(0x64);
    assert_eq!(t.iotype(), IOType::Port(0x64));
    assert_eq!(t.target(2), IOType::Port(0x66));
    let mut m = PortTransit::new(IOType::Mem(0x9000));
    m.set_loc(0xa000);
    assert_eq!(m.iotype(), IOType::Mem(0xa000));
    let r = IOTransit::new(0x1000_0000);
    assert_eq!(r.loc(), 0x1000_0000);
    assert_eq!(r.address(16), 0x1000_0010);
}

#[test]
fn syscon_values() {
    let mut s = Syscon { data_register: 0 };
    s.poweroff();
    assert_eq!(s.data_register, 0x5555);
    s.reboot();
    assert_eq!(s.data_register, 0x7777);
}

#[test]
fn uart_bytes() {
    let mut u = Uart16550 { data_register: 0 };
    assert_eq!(u.write_str("hi\n"), vec![b'h', b'i', b'\n']);
    assert_eq!(u.data_register, b'\n');
    assert_eq!(u.write_str(""), Vec::<u8>::new());
    assert_eq!(u.data_register, b'\n');
    assert_eq!(u.write_str("é"), vec![0xe9]);
}
