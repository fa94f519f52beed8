use inkwell::context::Context;
use yyn::compiler::codegen::llvm::{emit, has_nul, is_lowerable, module_uses_exit, EmitError};
use yyn::compiler::codegen::types;
use yyn::compiler::codegen::{BackendFunction, BackendModule, CodegenFunctionDataRef, Instruction};
use yyn::compiler::compile;
use yyn::compiler::parser::ast::Type;

#[test]
fn empty_module_is_lowered() {
    let context = Context::create();
    let module = emit(&context, &BackendModule { functions: vec![] }).unwrap();

    assert!(module.get_first_function().is_none());
    assert_eq!(module.get_name().to_str(), Ok("main_module"));
}

#[test]
fn round_trip_is_lowered() {
    let src = "function helper() { exit 1 }\nfunction main() -> int { helper() return 0 }";
    let context = Context::create();
    let module = emit(&context, &compile(src).unwrap()).unwrap();
    let text = module.print_to_string().to_string();

    assert!(module.verify().is_ok(), "{}", text);
    let helper = module.get_function("helper").unwrap();
    let main = module.get_function("main").unwrap();
    assert_eq!(helper.count_params(), 0);
    assert_eq!(main.count_params(), 0);
    assert!(helper.get_type().get_return_type().is_none());
    assert_eq!(
        main.get_type().get_return_type(),
        Some(inkwell::types::BasicTypeEnum::IntType(context.i32_type()))
    );
    assert_eq!(helper.count_basic_blocks(), 1);
    assert_eq!(main.count_basic_blocks(), 1);
    assert!(text.contains("define void @helper()"), "{}", text);
    assert!(text.contains("call void @\"ExitProcess@4\"(i32 1)"), "{}", text);
    assert!(text.contains("define i32 @main()"), "{}", text);
    assert!(text.contains("call void @helper()"), "{}", text);
    assert!(text.contains("ret i32 0"), "{}", text);
    assert!(text.contains("declare void @\"ExitProcess@4\"(i32)"), "{}", text);
}

#[test]
fn functions_keep_their_order() {
    let src = "function a() { b() }\nfunction b() { }";
    let context = Context::create();
    let module = emit(&context, &compile(src).unwrap()).unwrap();

    let first = module.get_first_function().unwrap();
    assert_eq!(first.get_name().to_str(), Ok("a"));
    assert_eq!(first.get_next_function().unwrap().get_name().to_str(), Ok("b"));
    assert!(first.get_next_function().unwrap().get_next_function().is_none());
    assert!(module.verify().is_ok());
}

#[test]
fn exit_primitive_is_declared_once() {
    let src = "function a() { exit 1 exit 2 }\nfunction b() { exit 3 }";
    let context = Context::create();
    let module = emit(&context, &compile(src).unwrap()).unwrap();
    let text = module.print_to_string().to_string();

    assert_eq!(text.matches("declare void @\"ExitProcess@4\"(i32)").count(), 1, "{}", text);
    assert!(text.contains("call void @\"ExitProcess@4\"(i32 2)"), "{}", text);
    assert!(text.contains("call void @\"ExitProcess@4\"(i32 3)"), "{}", text);
    let exit = module.get_function("ExitProcess@4").unwrap();
    assert_eq!(exit.count_params(), 1);
    assert_eq!(exit.count_basic_blocks(), 0);
    assert_eq!(exit.get_linkage(), inkwell::module::Linkage::External);
}

#[test]
fn returned_constant_is_lowered() {
    let context = Context::create();
    let module = emit(&context, &compile("function f() -> int { return 7 }").unwrap()).unwrap();
    let text = module.print_to_string().to_string();

    assert!(text.contains("ret i32 7"), "{}", text);
    assert!(!text.contains("ret void"), "{}", text);
    assert!(module.verify().is_ok());
}

#[test]
fn largest_constant_is_not_sign_extended() {
    let context = Context::create();
    let src = "function f() -> int { return 4294967295 }";
    let module = emit(&context, &compile(src).unwrap()).unwrap();
    let f = module.get_function("f").unwrap();
    let ret = f.get_first_basic_block().unwrap().get_terminator().unwrap();
    let value = ret.get_operand(0).unwrap().left().unwrap().into_int_value();

    assert_eq!(value.get_zero_extended_constant(), Some(4294967295));
}

#[test]
fn instructions_keep_their_order() {
    let module = BackendModule {
        functions: vec![BackendFunction {
            name: "f".to_owned(),
            return_ty: Type::Unit,
            body: vec![
                Instruction::Call(CodegenFunctionDataRef { index: 0 }),
                Instruction::Exit(5),
                Instruction::ReturnVoid,
            ],
        }],
    };
    let context = Context::create();
    let llvm = emit(&context, &module).unwrap();
    let block = llvm.get_function("f").unwrap().get_first_basic_block().unwrap();
    let first = block.get_first_instruction().unwrap();
    let second = first.get_next_instruction().unwrap();
    let third = second.get_next_instruction().unwrap();

    assert_eq!(first.get_opcode(), inkwell::values::InstructionOpcode::Call);
    assert_eq!(second.get_opcode(), inkwell::values::InstructionOpcode::Call);
    assert_eq!(third.get_opcode(), inkwell::values::InstructionOpcode::Return);
    assert!(third.get_next_instruction().is_none());
    assert_eq!(first.get_num_operands(), 1);
    assert_eq!(second.get_num_operands(), 2);
}

#[test]
fn call_of_a_missing_function_is_refused() {
    let module = BackendModule {
        functions: vec![BackendFunction {
            name: "f".to_owned(),
            return_ty: Type::Unit,
            body: vec![Instruction::Call(CodegenFunctionDataRef { index: 1 })],
        }],
    };
    let context = Context::create();

    assert!(!module.is_valid());
    assert_eq!(emit(&context, &module).err(), Some(EmitError::InvalidModule));
}

#[test]
fn validity_of_modules() {
    assert!(BackendModule { functions: vec![] }.is_valid());
    assert!(compile("function a() { a() }").unwrap().is_valid());
    let module = BackendModule {
        functions: vec![
            BackendFunction { name: "f".to_owned(), return_ty: Type::Unit, body: vec![] },
            BackendFunction {
                name: "g".to_owned(),
                return_ty: Type::Unit,
                body: vec![Instruction::Exit(1), Instruction::Call(CodegenFunctionDataRef { index: 2 })],
            },
        ],
    };
    assert!(!module.is_valid());
}

#[test]
fn llvm_types_of_the_language() {
    let context = Context::create();

    let unit = types::Type::from_ast_type(&Type::Unit, &context);
    let int = types::Type::from_ast_type(&Type::Int, &context);
    assert_eq!(unit, types::Type::Void(context.void_type()));
    assert_eq!(int, types::Type::BasicType(context.i32_type()));
    assert_eq!(unit.to_basic_type_enum(), None);
    assert_eq!(int.to_basic_type_enum(), Some(context.i32_type()));
    assert_eq!(Type::Unit.as_llvm_type(&context), None);
    assert_eq!(Type::Int.as_llvm_type(&context), Some(context.i32_type()));
    assert_eq!(
        unit.fn_type(&vec![context.i32_type()], false).print_to_string().to_string(),
        "void (i32)"
    );
    assert_eq!(int.fn_type(&vec![], false).print_to_string().to_string(), "i32 ()");
    assert!(int.fn_type(&vec![], true).is_var_arg());
}

#[test]
fn function_types_hold_what_they_were_made_of() {
    let context = Context::create();
    let i32_ty = context.i32_type();
    let i8_ty = context.i8_type();
    let unit = types::Type::from_ast_type(&Type::Unit, &context);
    let int = types::Type::from_ast_type(&Type::Int, &context);

    let returns_nothing = unit.fn_type(&vec![i8_ty, i32_ty], true);
    assert_eq!(returns_nothing.get_return_type(), None);
    assert_eq!(
        returns_nothing.get_param_types(),
        vec![
            inkwell::types::BasicTypeEnum::IntType(i8_ty),
            inkwell::types::BasicTypeEnum::IntType(i32_ty),
        ]
    );
    assert_eq!(returns_nothing.count_param_types(), 2);
    assert!(returns_nothing.is_var_arg());

    let returns_int = int.fn_type(&vec![], false);
    assert_eq!(
        returns_int.get_return_type(),
        Some(inkwell::types::BasicTypeEnum::IntType(i32_ty))
    );
    assert_eq!(returns_int.get_return_type().map(|ty| ty.into_int_type()), int.to_basic_type_enum());
    assert!(returns_int.get_param_types().is_empty());
    assert!(!returns_int.is_var_arg());

    let returns_byte = types::Type::BasicType(i8_ty).fn_type(&vec![i32_ty], false);
    assert_eq!(returns_byte.get_return_type(), Some(inkwell::types::BasicTypeEnum::IntType(i8_ty)));
    assert_eq!(returns_byte.print_to_string().to_string(), "i8 (i32)");
}

fn unit_function(name: &str, body: Vec<Instruction>) -> BackendFunction {
    BackendFunction { name: name.to_owned(), return_ty: Type::Unit, body }
}

#[test]
fn exit_primitive_stands_behind_the_functions() {
    let src = "function a() { b() }\nfunction b() { exit 9 }";
    let context = Context::create();
    let module = emit(&context, &compile(src).unwrap()).unwrap();

    let a = module.get_first_function().unwrap();
    let b = a.get_next_function().unwrap();
    let exit = b.get_next_function().unwrap();
    assert_eq!(a.get_name().to_str(), Ok("a"));
    assert_eq!(b.get_name().to_str(), Ok("b"));
    assert_eq!(exit.get_name().to_str(), Ok("ExitProcess@4"));
    assert!(exit.get_next_function().is_none());
    assert_eq!(module.get_last_function(), Some(exit));
    assert!(!exit.get_type().is_var_arg());
    assert!(exit.get_type().get_return_type().is_none());
    assert_eq!(
        exit.get_type().get_param_types(),
        vec![inkwell::types::BasicTypeEnum::IntType(context.i32_type())]
    );
}

#[test]
fn exit_primitive_is_absent_where_nothing_exits() {
    let context = Context::create();
    let module = emit(&context, &compile("function a() { a() }").unwrap()).unwrap();

    assert!(module.get_function("ExitProcess@4").is_none());
    assert_eq!(module.get_first_function(), module.get_last_function());
}

#[test]
fn calls_name_their_callee_and_status() {
    let src = "function a() { b() exit 77 }\nfunction b() { }";
    let context = Context::create();
    let module = emit(&context, &compile(src).unwrap()).unwrap();
    let b = module.get_function("b").unwrap();
    let exit = module.get_function("ExitProcess@4").unwrap();
    let block = module.get_function("a").unwrap().get_first_basic_block().unwrap();
    let call = block.get_first_instruction().unwrap();
    let exit_call = call.get_next_instruction().unwrap();

    assert_eq!(call.get_num_operands(), 1);
    assert_eq!(
        call.get_operand(0).unwrap().left().unwrap().into_pointer_value(),
        b.as_global_value().as_pointer_value()
    );
    assert_eq!(exit_call.get_num_operands(), 2);
    let status = exit_call.get_operand(0).unwrap().left().unwrap().into_int_value();
    assert_eq!(status.get_zero_extended_constant(), Some(77));
    assert_eq!(status.get_type().get_bit_width(), 32);
    assert_eq!(
        exit_call.get_operand(1).unwrap().left().unwrap().into_pointer_value(),
        exit.as_global_value().as_pointer_value()
    );
    assert!(b.get_first_basic_block().unwrap().get_first_instruction().unwrap().get_next_instruction().is_none());
    assert_eq!(module.get_function("a").unwrap().count_basic_blocks(), 1);
}

#[test]
fn modules_that_cannot_be_lowered() {
    let context = Context::create();
    let twice = BackendModule {
        functions: vec![unit_function("f", vec![]), unit_function("g", vec![]), unit_function("f", vec![])],
    };
    let nul = BackendModule { functions: vec![unit_function("f\0g", vec![])] };
    let reserved = BackendModule { functions: vec![unit_function("ExitProcess@4", vec![])] };
    let fine = BackendModule {
        functions: vec![unit_function("", vec![Instruction::Exit(1)]), unit_function("ExitProcess", vec![])],
    };

    assert!(twice.is_valid() && !is_lowerable(&twice));
    assert!(nul.is_valid() && !is_lowerable(&nul));
    assert!(reserved.is_valid() && !is_lowerable(&reserved));
    assert!(is_lowerable(&fine));
    assert_eq!(emit(&context, &twice).err(), Some(EmitError::InvalidModule));
    assert_eq!(emit(&context, &nul).err(), Some(EmitError::InvalidModule));
    assert_eq!(emit(&context, &reserved).err(), Some(EmitError::InvalidModule));
    assert!(emit(&context, &fine).is_ok());
}

#[test]
fn null_characters_and_exits_are_found() {
    assert!(!has_nul(""));
    assert!(!has_nul("abc"));
    assert!(has_nul("\0"));
    assert!(has_nul("ab\0c"));
    assert!(!module_uses_exit(&BackendModule { functions: vec![] }));
    assert!(!module_uses_exit(&compile("function a() { a() }").unwrap()));
    assert!(module_uses_exit(&compile("function a() { }\nfunction b() { a() exit 1 }").unwrap()));
}
