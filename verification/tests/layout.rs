//! Return layouts of types.
use compiler::mir::layout::{option_ty, result_ty, MirLayout, Ty, INT, STRING};

fn int_ty() -> Ty {
    Ty::Con(INT.into())
}
fn string_ty() -> Ty {
    Ty::Con(STRING.into())
}

#[test]
fn option_int_is_two_slot() {
    assert_eq!(MirLayout::from_coil_ty(&option_ty(int_ty())), MirLayout::TwoSlot);
}

#[test]
fn option_string_is_heap_niche() {
    assert_eq!(
        MirLayout::from_coil_ty(&option_ty(string_ty())),
        MirLayout::HeapNiche
    );
}

#[test]
fn nested_option_stays_word() {
    let ty = option_ty(option_ty(int_ty()));
    assert_eq!(MirLayout::from_coil_ty(&ty), MirLayout::Word);
}

#[test]
fn result_int_int_is_two_slot() {
    assert_eq!(
        MirLayout::from_coil_ty(&result_ty(int_ty(), int_ty())),
        MirLayout::TwoSlot
    );
}

#[test]
fn result_int_string_is_two_slot() {
    assert_eq!(
        MirLayout::from_coil_ty(&result_ty(int_ty(), string_ty())),
        MirLayout::TwoSlot
    );
}

#[test]
fn result_string_string_is_heap_niche() {
    assert_eq!(
        MirLayout::from_coil_ty(&result_ty(string_ty(), string_ty())),
        MirLayout::HeapNiche
    );
}

#[test]
fn result_string_int_stays_boxed() {
    assert_eq!(
        MirLayout::from_coil_ty(&result_ty(string_ty(), int_ty())),
        MirLayout::Word
    );
}

#[test]
fn product_int_int_is_two_slot() {
    assert_eq!(
        MirLayout::from_coil_ty(&Ty::Tuple(vec![int_ty(), int_ty()])),
        MirLayout::TwoSlot
    );
}

#[test]
fn words_match_abi() {
    assert_eq!(MirLayout::Word.words(), 1);
    assert_eq!(MirLayout::HeapNiche.words(), 1);
    assert_eq!(MirLayout::TwoSlot.words(), 2);
    assert!(MirLayout::HeapNiche.is_heap_word());
    assert!(!MirLayout::Word.is_heap_word());
}
