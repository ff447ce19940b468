use cl_parse::{CommandLine, CommandLineDef, ParseOutcome};

fn resolved(outcome: ParseOutcome) -> CommandLine {
    match outcome {
        ParseOutcome::Success(cl) => cl,
        other => panic!("{:?}", other),
    }
}

#[test]
fn integration_tests_should_return_default_boolean_false() {
  let env_args= vec![String::from("test")];
  let mut def = CommandLineDef::new();
  def.add_option(vec!["-b"], None, Some("true"), "A boolean value always defaults to false").unwrap();
  def.add_option(vec!["-c"], None, Some("false"), "Another boolean value").unwrap();
  def.add_option(vec!["-d"], None, None, "Another boolean value").unwrap();
  def.add_flag(vec!["-f"], "A flag").unwrap();
  let cl = resolved(def.parse(env_args));

  let b:bool = cl.option("-b", "bool").unwrap();
  assert_eq!(b, false);

  let c:bool = cl.option("-c", "bool").unwrap();
  assert_eq!(c, false);

  let d:bool = cl.option("-d", "bool").unwrap();
  assert_eq!(d, false);

  let f:bool = cl.option("-f", "bool").unwrap();
  assert_eq!(f, false);
}

#[test]
fn integration_tests_should_return_concat_flags() {
  let env_args= vec![String::from("test"), String::from("-dcb")];
  let mut def = CommandLineDef::new();
  def.add_flag(vec!["-b"], "A boolean value always defaults to false").unwrap();
  def.add_flag(vec!["-c"], "Another boolean value").unwrap();
  def.add_flag(vec!["-d"], "Another boolean value").unwrap();
  def.add_flag(vec!["-f"], "A flag").unwrap();
  let cl = resolved(def.parse(env_args));

  let b:bool = cl.option("-b", "bool").unwrap();
  assert_eq!(b, true);

  let c:bool = cl.option("-c", "bool").unwrap();
  assert_eq!(c, true);

  let d:bool = cl.option("-d", "bool").unwrap();
  assert_eq!(d, true);

  let f:bool = cl.option("-f", "bool").unwrap();
  assert_eq!(f, false);
}

#[test]
fn integration_tests_should_return_boolean() {
  let env_args= vec![String::from("test"), String::from("-c")];
  let mut def = CommandLineDef::new();
  def.add_option(vec!["-b"], None, Some("false"), "A boolean value").unwrap();
  def.add_option(vec!["-c"], None, Some("false"), "Another boolean value").unwrap();
  let cl = resolved(def.parse(env_args));

  let b:bool = cl.option("-b", "bool").unwrap();
  assert_eq!(b, false);

  let c:bool = cl.option("-c", "bool").unwrap();
  assert_eq!(c, true);
}

#[test]
fn integration_tests_should_return_i16() {
  let env_args=vec![
    "test".to_string(),
    "--negative".to_string(), "-1".to_string(),
    "--positive".to_string(), "1".to_string(),
  ];
  let mut def = CommandLineDef::new();
  def.add_option(vec!["--negative"], Some("neg"), None, "A negative value").unwrap();
  def.add_option(vec!["--positive"], Some("pos"), None, "A positive value").unwrap();
  let cl = resolved(def.parse(env_args));

  assert_eq!(cl.program_name(), "test");

  let neg:i16 = cl.option("--negative", "i16").unwrap();
  assert_eq!(neg, -1);

  let pos:i16 = cl.option("--positive", "i16").unwrap();
  assert_eq!(pos, 1);
}

#[test]
fn integration_tests_aliases_should_have_value() {
  let env_args= vec![
    "test".to_string(),
    "-n".to_string(), "-1".to_string(),
    "-p".to_string(), "1".to_string(),
  ];
  let mut def = CommandLineDef::new();
  def.add_option(vec!["-n","--negative"], Some("neg"), None, "A negative value").unwrap();
  def.add_option(vec!["-p","--positive"], Some("pos"), None, "A positive value").unwrap();
  let cl = resolved(def.parse(env_args));

  assert_eq!(cl.program_name(), "test");

  let n:i16 = cl.option("-n", "i16").unwrap();
  assert_eq!(n, -1);

  let neg:i16 = cl.option("--negative", "i16").unwrap();
  assert_eq!(neg, n);

  let p:i16 = cl.option("-p", "i16").unwrap();
  assert_eq!(p, 1);

  let pos:i16 = cl.option("--positive", "i16").unwrap();
  assert_eq!(pos, p);
}

#[test]
fn integration_tests_should_capture_interleaved_args() {
  let env_args= vec![
    "test".to_string(),
    "arg1".to_string(),
    "-n".to_string(), "-1".to_string(),
    "arg2".to_string(),
    "--bool".to_string(),
    "arg3".to_string(),
  ];
  let mut def = CommandLineDef::new();
  def.add_option(vec!["-b","--bool"], None, None, "A boolean value").unwrap();
  def.add_option(vec!["-n","--num"], Some("num"), None, "A numeric value").unwrap();
  def.add_argument("arg-0");
  def.add_argument("arg-1");
  def.add_argument("arg-2");
  let cl = resolved(def.parse(env_args));

  assert_eq!(cl.program_name(), "test");

  let b:bool = cl.option("-b", "bool").unwrap();
  assert_eq!(b, true);

  let n:i16 = cl.option("-n", "i16").unwrap();
  assert_eq!(n, -1);

  assert_eq!(cl.arguments(), 3);

  let arg0:String = cl.argument_at(0, "String").unwrap();
  assert_eq!(arg0, "arg1");

  let arg1:String = cl.argument_at(1, "String").unwrap();
  assert_eq!(arg1, "arg2");

  let arg2:String = cl.argument_at(2, "String").unwrap();
  assert_eq!(arg2, "arg3");
}

