use media_serve::error::AppError;

#[test]
fn statuses_of_errors() {
    assert_eq!(AppError::BadRequest("x".into()).status_code(), 400);
    assert_eq!(AppError::Forbidden("x".into()).status_code(), 403);
    assert_eq!(AppError::NotFound("x".into()).status_code(), 404);
    assert_eq!(AppError::Internal("x".into()).status_code(), 500);
    assert_eq!(AppError::Forbidden("x".into()).error_type(), "forbidden");
}

#[test]
fn error_pages() {
    let p = AppError::BadRequest("bad range".into()).error_page();
    assert_eq!(p.status, 400);
    assert_eq!(p.description, "bad range");
    assert_eq!(p.technical_details, "Erro técnico: bad range");
    assert_eq!(p.error_type, "bad_request");
    let p = AppError::NotFound("gone".into()).error_page();
    assert_eq!(p.title, "Arquivo Não Encontrado");
    assert_eq!(p.suggestions.len(), 3);
    let p = AppError::Forbidden("../x".into()).error_page();
    assert_eq!(p.status, 403);
    assert_ne!(p.description, "../x");
}
