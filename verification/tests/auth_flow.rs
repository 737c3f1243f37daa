use authcore::directory::UserDirectory;
use authcore::errors::AppError;
use authcore::gate;
use authcore::role::Role;
use authcore::service::AuthService;
use authcore::user::{CreateUserRequest, LoginRequest};

fn service(ttl: u64) -> AuthService {
    AuthService::new(UserDirectory::new(), String::from("test-signing-secret"), ttl)
}

fn ann_request() -> CreateUserRequest {
    CreateUserRequest {
        email: String::from("a@x.com"),
        password: String::from("password1"),
        name: String::from("Ann"),
        user_type: String::from("student"),
    }
}

#[test]
fn register_login_me_scenario() {
    let mut svc = service(3600);
    let resp = svc.register_user(ann_request()).expect("registration succeeds");
    assert_eq!(resp.email, "a@x.com");
    assert_eq!(resp.name, "Ann");
    assert_eq!(resp.user_type, "student");
    // ids come from the uuid generator: hyphenated, 36 characters
    assert_eq!(resp.id.len(), 36);
    assert!(resp.id.contains('-'));
    // a matching student profile row exists
    let student = svc.directory.find_student(&resp.id).expect("student profile row");
    assert_eq!(student.grade, "Not Set");
    assert!(student.subjects.is_empty());

    // login with the same credentials yields a token whose decoded role is student
    let (token, user) = svc
        .login(LoginRequest { email: String::from("a@x.com"), password: String::from("password1") })
        .expect("login succeeds");
    assert_eq!(user.email, "a@x.com");
    let claims = svc.validate_jwt(&token).expect("minted token validates");
    assert_eq!(claims.role, Role::Student);
    assert_eq!(claims.email, "a@x.com");
    assert_eq!(claims.sub, resp.id);

    // GET /me with that token returns Ann's public view
    let header = format!("Bearer {}", token);
    let gate_claims = gate::authenticate(&svc, Some(header.as_str())).expect("gate accepts the token");
    let me = svc.get_user_by_id(&gate_claims.sub).expect("caller exists");
    assert_eq!(me.name, "Ann");
    assert_eq!(me.email, "a@x.com");

    // no header: rejected with the authentication error
    let no_header = gate::authenticate(&svc, None).unwrap_err();
    assert_eq!(no_header.status_code(), 401);

    // a pre-expired token: rejected on /me even though its signature is valid
    let expired = mint_at(&svc, &svc.directory.users[0], 0).expect("token mints");
    let expired_header = format!("Bearer {}", expired);
    let rejected = gate::authenticate(&svc, Some(expired_header.as_str())).unwrap_err();
    assert_eq!(rejected.status_code(), 401);
}

fn mint_at(svc: &AuthService, user: &authcore::user::User, now: u64) -> Result<String, AppError> {
    svc.create_jwt_at(user, now)
}

#[test]
fn duplicate_registration_conflicts() {
    let mut svc = service(3600);
    svc.register_user(ann_request()).expect("first registration succeeds");
    let err = svc.register_user(ann_request()).unwrap_err();
    match err {
        AppError::ValidationError(m) => assert_eq!(m, "User already exists"),
        other => panic!("expected the conflict error, got {:?}", other),
    }
    // no duplicate user row exists for the email
    let mut count = 0;
    for u in svc.directory.users.iter() {
        if u.email == "a@x.com" {
            count += 1;
        }
    }
    assert_eq!(count, 1);
}

#[test]
fn unknown_email_and_wrong_password_same_error() {
    let mut svc = service(3600);
    svc.register_user(ann_request()).expect("registration succeeds");
    let unknown = svc
        .login(LoginRequest { email: String::from("b@x.com"), password: String::from("password1") })
        .unwrap_err();
    let wrong = svc
        .login(LoginRequest { email: String::from("a@x.com"), password: String::from("password2") })
        .unwrap_err();
    let (m1, s1) = match &unknown {
        AppError::AuthenticationError(m) => (m.clone(), unknown.status_code()),
        other => panic!("expected the authentication error, got {:?}", other),
    };
    let (m2, s2) = match &wrong {
        AppError::AuthenticationError(m) => (m.clone(), wrong.status_code()),
        other => panic!("expected the authentication error, got {:?}", other),
    };
    assert_eq!(m1, m2);
    assert_eq!(m1, "Invalid credentials");
    assert_eq!(s1, 401);
    assert_eq!(s2, 401);
}

#[test]
fn invalid_role_tag_rejected() {
    let mut svc = service(3600);
    let mut req = ann_request();
    req.user_type = String::from("admin");
    let err = svc.register_user(req).unwrap_err();
    match err {
        AppError::ValidationError(m) => assert_eq!(m, "Invalid user type"),
        other => panic!("expected the validation error, got {:?}", other),
    }
}

#[test]
fn bad_request_shapes_rejected() {
    let mut svc = service(3600);
    let mut req = ann_request();
    req.password = String::from("short");
    assert!(matches!(svc.register_user(req).unwrap_err(), AppError::ValidationError(_)));
    let mut req = ann_request();
    req.email = String::from("not-an-email");
    assert!(matches!(svc.register_user(req).unwrap_err(), AppError::ValidationError(_)));
    let mut req = ann_request();
    req.name = String::from("A");
    assert!(matches!(svc.register_user(req).unwrap_err(), AppError::ValidationError(_)));
}

#[test]
fn get_user_by_id_miss_is_not_found() {
    let svc = service(3600);
    let err = svc.get_user_by_id("no-such-id").unwrap_err();
    match &err {
        AppError::NotFound(m) => {
            assert_eq!(m, "User not found");
            assert_eq!(err.status_code(), 404);
        },
        other => panic!("expected the not-found error, got {:?}", other),
    }
}

#[test]
fn error_envelope_status_codes() {
    assert_eq!(AppError::ValidationError(String::from("x")).status_code(), 400);
    assert_eq!(AppError::AuthenticationError(String::from("x")).status_code(), 401);
    assert_eq!(AppError::NotFound(String::from("x")).status_code(), 404);
    assert_eq!(AppError::InternalServerError(String::from("x")).status_code(), 500);
    assert_eq!(AppError::DatabaseError(String::from("x")).status_code(), 500);
    assert_eq!(AppError::ValidationError(String::from("bad input")).message().as_str(), "bad input");
}

#[test]
fn teacher_and_parent_profiles_created() {
    let mut svc = service(3600);
    let mut req = ann_request();
    req.email = String::from("tom@x.com");
    req.name = String::from("Tom");
    req.user_type = String::from("teacher");
    let teacher = svc.register_user(req).expect("teacher registration succeeds");
    assert!(svc.directory.find_teacher(&teacher.id).is_some());
    assert!(svc.directory.find_student(&teacher.id).is_none());

    let mut req = ann_request();
    req.email = String::from("pat@x.com");
    req.name = String::from("Pat");
    req.user_type = String::from("parent");
    let parent = svc.register_user(req).expect("parent registration succeeds");
    assert!(svc.directory.find_parent(&parent.id).is_some());
    assert_eq!(parent.user_type, "parent");
}
