use tardi::op_code::OpCode;

#[test]
fn test_try_from_str() {
    assert_eq!(OpCode::try_from("+").unwrap(), OpCode::Add);
    assert_eq!(OpCode::try_from("-").unwrap(), OpCode::Sub);
    assert_eq!(OpCode::try_from("*").unwrap(), OpCode::Mult);
    assert_eq!(OpCode::try_from("/").unwrap(), OpCode::Div);
    assert_eq!(OpCode::try_from("%").unwrap(), OpCode::Modulo);
    assert_eq!(OpCode::try_from("!").unwrap(), OpCode::Not);
    assert_eq!(OpCode::try_from("==").unwrap(), OpCode::Equal);
    assert_eq!(OpCode::try_from("<").unwrap(), OpCode::Less);
    assert_eq!(OpCode::try_from(">").unwrap(), OpCode::Greater);
    assert_eq!(OpCode::try_from(">r").unwrap(), OpCode::ToCallStack);
    assert_eq!(OpCode::try_from("r>").unwrap(), OpCode::FromCallStack);
    assert_eq!(OpCode::try_from("r@").unwrap(), OpCode::CopyCallStack);
    assert_eq!(OpCode::try_from("drop").unwrap(), OpCode::Drop);
    assert_eq!(OpCode::try_from("swap").unwrap(), OpCode::Swap);
    assert_eq!(OpCode::try_from("return").unwrap(), OpCode::Return);
    assert_eq!(OpCode::try_from("IP").unwrap(), OpCode::IP);
    assert!(OpCode::try_from("oops").is_err());
}

#[test]
fn test_try_from_u8() {
    assert_eq!(OpCode::from_code(0).unwrap(), OpCode::GetConstant);
    assert_eq!(OpCode::from_code(1).unwrap(), OpCode::Add);
    assert_eq!(OpCode::from_code(16).unwrap(), OpCode::Drop);
    assert_eq!(OpCode::from_code(19).unwrap(), OpCode::Return);
    assert!(OpCode::from_code(177).is_err());
}
