use huzi::layout::{llvm_size_align, struct_member_offsets, LlvmShape};

#[test]
fn scalar_sizes_and_alignments() {
    assert_eq!(llvm_size_align(&LlvmShape::Int(1)), (1, 1));
    assert_eq!(llvm_size_align(&LlvmShape::Int(32)), (4, 4));
    assert_eq!(llvm_size_align(&LlvmShape::Int(64)), (8, 8));
    assert_eq!(llvm_size_align(&LlvmShape::Int(128)), (16, 8));
    assert_eq!(llvm_size_align(&LlvmShape::Float(8)), (8, 8));
    assert_eq!(llvm_size_align(&LlvmShape::Pointer), (8, 8));
    assert_eq!(llvm_size_align(&LlvmShape::Vector), (16, 16));
}

#[test]
fn arrays_and_structs() {
    let arr = LlvmShape::Array(Box::new(LlvmShape::Int(32)), 10);
    assert_eq!(llvm_size_align(&arr), (40, 4));
    let s = LlvmShape::Struct(vec![LlvmShape::Int(8), LlvmShape::Int(32), LlvmShape::Int(16)]);
    assert_eq!(llvm_size_align(&s), (10, 4));
    assert_eq!(llvm_size_align(&LlvmShape::Struct(vec![])), (0, 1));
    let nested = LlvmShape::Struct(vec![LlvmShape::Int(8), s]);
    assert_eq!(llvm_size_align(&nested), (14, 4));
}

#[test]
fn member_offsets_follow_alignment() {
    let fields = vec![LlvmShape::Int(8), LlvmShape::Int(32), LlvmShape::Int(16), LlvmShape::Pointer];
    assert_eq!(struct_member_offsets(&fields), vec![0, 4, 8, 16]);
    assert!(struct_member_offsets(&vec![]).is_empty());
}
