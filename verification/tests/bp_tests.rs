use rwmem::bp::{
    encode_bp_request, parse_regs, parse_regs_with_simd, set_reg_request, set_simd_reg_request,
    ALL_REGS_BYTES, GP_REGS_BYTES,
};
use rwmem::errors::Error;
use rwmem::{BreakpointType, DEFAULT_DRIVER_PATH};

#[test]
fn driver_path_is_stable() {
    assert_eq!(DEFAULT_DRIVER_PATH, "/dev/rwmem");
}

#[test]
fn trigger_tokens_parse() {
    assert_eq!(BreakpointType::from_str("r"), Ok(BreakpointType::Read));
    assert_eq!(BreakpointType::from_str("read"), Ok(BreakpointType::Read));
    assert_eq!(BreakpointType::from_str("w"), Ok(BreakpointType::Write));
    assert_eq!(BreakpointType::from_str("write"), Ok(BreakpointType::Write));
    assert_eq!(BreakpointType::from_str("rw"), Ok(BreakpointType::ReadWrite));
    assert_eq!(
        BreakpointType::from_str("readwrite"),
        Ok(BreakpointType::ReadWrite)
    );
    assert_eq!(
        BreakpointType::from_str("read_write"),
        Ok(BreakpointType::ReadWrite)
    );
    assert_eq!(BreakpointType::from_str("x"), Ok(BreakpointType::Execute));
    assert_eq!(
        BreakpointType::from_str("execute"),
        Ok(BreakpointType::Execute)
    );
}

#[test]
fn trigger_tokens_ignore_case() {
    assert_eq!(BreakpointType::from_str("R"), Ok(BreakpointType::Read));
    assert_eq!(
        BreakpointType::from_str("ReadWrite"),
        Ok(BreakpointType::ReadWrite)
    );
    assert_eq!(
        BreakpointType::from_str("READ_WRITE"),
        Ok(BreakpointType::ReadWrite)
    );
    assert_eq!(BreakpointType::from_str("X"), Ok(BreakpointType::Execute));
}

#[test]
fn bad_trigger_token_is_an_error() {
    assert_eq!(
        BreakpointType::from_str("rx"),
        Err(Error::InvalidBreakpointType(String::from("rx")))
    );
    assert_eq!(
        BreakpointType::from_str(""),
        Err(Error::InvalidBreakpointType(String::new()))
    );
}

#[test]
fn trigger_codes() {
    assert_eq!(BreakpointType::Read.code(), 1);
    assert_eq!(BreakpointType::Write.code(), 2);
    assert_eq!(BreakpointType::ReadWrite.code(), 3);
    assert_eq!(BreakpointType::Execute.code(), 4);
}

#[test]
fn bp_request_layout() {
    let buf = encode_bp_request(0x1234, BreakpointType::ReadWrite, 8, 0xdeadbeef);
    assert_eq!(buf.len(), 16);
    assert_eq!(&buf[0..4], &0x1234i32.to_le_bytes());
    assert_eq!(buf[4], 3);
    assert_eq!(buf[5], 8);
    assert_eq!(buf[6], 0);
    assert_eq!(buf[7], 0);
    assert_eq!(&buf[8..16], &0xdeadbeefu64.to_le_bytes());
}

#[test]
fn bp_request_negative_pid() {
    let buf = encode_bp_request(-7, BreakpointType::Execute, 4, 0);
    assert_eq!(&buf[0..4], &(-7i32).to_le_bytes());
    assert_eq!(buf[4], 4);
}

#[test]
fn register_index_34_and_above_fail() {
    assert_eq!(set_reg_request(34, 0), Err(Error::InvalidRegister(34)));
    assert_eq!(set_reg_request(255, 0), Err(Error::InvalidRegister(255)));
    assert_eq!(
        set_simd_reg_request(34, 0),
        Err(Error::InvalidRegister(34))
    );
    assert_eq!(
        set_simd_reg_request(99, 0),
        Err(Error::InvalidRegister(99))
    );
}

#[test]
fn register_indices_below_34_never_fail() {
    for reg in 0u8..34 {
        assert!(set_reg_request(reg, 0x55).is_ok());
        assert!(set_simd_reg_request(reg, 0x55).is_ok());
    }
}

#[test]
fn set_reg_param_layout() {
    let buf = set_reg_request(33, 0x1122334455667788).expect("valid index");
    assert_eq!(buf.len(), 16);
    assert_eq!(&buf[0..8], &33u64.to_le_bytes());
    assert_eq!(&buf[8..16], &0x1122334455667788u64.to_le_bytes());
}

#[test]
fn set_simd_reg_param_layout() {
    let value = 0x00112233445566778899aabbccddeeffu128;
    let buf = set_simd_reg_request(2, value).expect("valid index");
    assert_eq!(buf.len(), 32);
    assert_eq!(&buf[0..8], &2u64.to_le_bytes());
    assert!(buf[8..16].iter().all(|&b| b == 0));
    assert_eq!(&buf[16..32], &value.to_le_bytes());
}

#[test]
fn gp_register_block_decodes_field_by_field() {
    let mut buf = Vec::with_capacity(GP_REGS_BYTES);
    for i in 0..34u64 {
        buf.extend_from_slice(&(0x1000 + i).to_le_bytes());
    }
    assert_eq!(buf.len(), GP_REGS_BYTES);
    let regs = parse_regs(&buf);
    assert_eq!(regs.regs[0], 0x1000);
    assert_eq!(regs.regs[30], 0x101e);
    assert_eq!(regs.sp, 0x101f);
    assert_eq!(regs.pc, 0x1020);
    assert_eq!(regs.pstate, 0x1021);
}

#[test]
fn simd_register_block_decodes_field_by_field() {
    let mut buf = Vec::with_capacity(ALL_REGS_BYTES);
    for i in 0..34u64 {
        buf.extend_from_slice(&(0x2000 + i).to_le_bytes());
    }
    for k in 0..32u128 {
        buf.extend_from_slice(&(0x3000 + k).to_le_bytes());
    }
    buf.extend_from_slice(&0xaabbccddu32.to_le_bytes());
    buf.extend_from_slice(&0x11223344u32.to_le_bytes());
    buf.extend_from_slice(&[0u8; 8]);
    assert_eq!(buf.len(), ALL_REGS_BYTES);
    let (gp, simd) = parse_regs_with_simd(&buf);
    assert_eq!(gp.regs[5], 0x2005);
    assert_eq!(gp.pstate, 0x2021);
    assert_eq!(simd.regs[0], 0x3000);
    assert_eq!(simd.regs[31], 0x301f);
    assert_eq!(simd.fpsr, 0xaabbccdd);
    assert_eq!(simd.fpcr, 0x11223344);
}
