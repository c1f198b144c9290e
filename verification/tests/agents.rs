use lau_compilers::agent_dsl::{compile_agent, compile_and_optimize, config_get, ir_room, try_compile_and_optimize, ActionType, ConfigValue, HandlerType};
use lau_compilers::optimization::FloatOp;

fn fold_float(op: FloatOp, a: &String, b: &String) -> Option<String> {
    let x: f64 = a.parse().ok()?;
    let y: f64 = b.parse().ok()?;
    let r = match op {
        FloatOp::Add => x + y,
        FloatOp::Sub => x - y,
        FloatOp::Mul => x * y,
        FloatOp::Div => {
            if y != 0.0 {
                x / y
            } else {
                return None;
            }
        }
        FloatOp::Neg => -x,
    };
    Some(format!("{}", r))
}

#[test]
fn test_parse_simple_agent() {
    let source = r#"
        agent Assistant {
            skill greet {
                do "Hello, how can I help?"
                timeout: 5000
            }
            on message do emit("response")
        }
    "#;
    let config = compile_agent(source).unwrap();
    assert_eq!(config.name, "Assistant");
    assert_eq!(config.skills.len(), 1);
    assert_eq!(config.skills[0].name, "greet");
    assert_eq!(config.skills[0].timeout_ms, Some(5000));
    assert_eq!(config.triggers.len(), 1);
}

#[test]
fn test_agent_config_values() {
    let source = r#"
        agent Bot {
            retries: 3
            skill respond {
                do "OK"
                retry: 2
            }
        }
    "#;
    let config = compile_agent(source).unwrap();
    assert_eq!(config_get(&config.config, "retries"), Some(&ConfigValue::Int(3)));
    assert_eq!(config.skills[0].retry_count, Some(2));
}

#[test]
fn test_agent_pipeline_handler() {
    let source = r#"
        agent Worker {
            skill process {
                do [parse, transform, store]
            }
        }
    "#;
    let config = compile_agent(source).unwrap();
    match &config.skills[0].handler_type {
        HandlerType::Pipeline(steps) => {
            assert_eq!(steps, &vec!["parse", "transform", "store"]);
        }
        other => panic!("expected pipeline, got {:?}", other),
    }
}

#[test]
fn test_agent_trigger_action() {
    let source = r#"
        agent Bot {
            on message do emit("reply")
        }
    "#;
    let config = compile_agent(source).unwrap();
    match &config.triggers[0].action_type {
        ActionType::Emit(s) => assert_eq!(s, "reply"),
        other => panic!("expected emit, got {:?}", other),
    }
}

#[test]
fn test_config_display() {
    let cv = ConfigValue::Array(vec![ConfigValue::Int(1), ConfigValue::String("hello".into())]);
    let s = cv.to_string();
    assert!(s.contains("1"));
    assert!(s.contains("hello"));
}

#[test]
fn test_no_agent_error() {
    let result = compile_agent("42");
    assert!(result.is_err());
    assert!(result.unwrap_err()[0].contains("no agent"));
}

#[test]
fn test_agent_with_guard() {
    let source = r#"
        agent Guarded {
            on message guard true do emit("filtered")
        }
    "#;
    let config = compile_agent(source).unwrap();
    assert!(config.triggers[0].guard.is_some());
}

#[test]
fn test_compile_and_optimize() {
    let source = r#"
        agent OptBot {
            skill compute {
                do "calculate"
                timeout: 1000
            }
            on request do emit("result")
        }
    "#;
    let result = compile_and_optimize(source, &fold_float);
    assert!(result.is_ok());
}

#[test]
fn try_compile_and_optimize_agrees_with_compile_and_optimize() {
    let source = r#"
        fn f() { let x = 2 * 3; return x; }
        agent OptBot {
            skill compute {
                do "calculate"
                timeout: 1000
            }
            on request do emit("result")
        }
    "#;
    assert!(ir_room(source));
    let a = compile_and_optimize(source, &fold_float).unwrap();
    let b = try_compile_and_optimize(source, &fold_float).unwrap().unwrap();
    assert!(!a.1.is_empty());
    assert_eq!(a.1.len(), b.1.len());
    for (x, y) in a.1.iter().zip(b.1.iter()) {
        assert_eq!(format!("{:?}", x.blocks), format!("{:?}", y.blocks));
    }
    assert!(try_compile_and_optimize("agent", &fold_float).unwrap().is_err());
}
