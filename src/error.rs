//! Errors of the library, and the HTTP status each one is answered with.
use vstd::prelude::*;

verus! {

/// What went wrong with a request.
#[derive(Debug)]
pub enum AppError {
    /// Malformed input.
    BadRequest(String),
    /// An attempt to leave the sandbox root.
    Forbidden(String),
    /// A missing file or artifact.
    NotFound(String),
    /// An unexpected read, write or encode failure.
    Internal(String),
}

/// The HTTP status that answers an error.
pub open spec fn status_of(e: &AppError) -> u16 {
    match e {
        AppError::BadRequest(_) => 400u16,
        AppError::Forbidden(_) => 403u16,
        AppError::NotFound(_) => 404u16,
        AppError::Internal(_) => 500u16,
    }
}

pub open spec fn message_of(e: &AppError) -> Seq<char> {
    match e {
        AppError::BadRequest(m) => m@,
        AppError::Forbidden(m) => m@,
        AppError::NotFound(m) => m@,
        AppError::Internal(m) => m@,
    }
}

/// What the error page of an error shows.
pub struct ErrorPage {
    pub status: u16,
    pub title: String,
    pub description: String,
    pub error_type: String,
    pub suggestions: Vec<String>,
    pub technical_details: String,
}

fn texts2(a: &str, b: &str) -> (r: Vec<String>)
    ensures
        r@.len() == 2,
        r@[0]@ == a@,
        r@[1]@ == b@,
{
    let mut v = Vec::new();
    v.push(a.to_owned());
    v.push(b.to_owned());
    v
}

impl AppError {
    /// The HTTP status that answers this error.
    pub fn status_code(&self) -> (r: u16)
        ensures
            r == status_of(self),
    {
        match self {
            AppError::BadRequest(_) => 400,
            AppError::Forbidden(_) => 403,
            AppError::NotFound(_) => 404,
            AppError::Internal(_) => 500,
        }
    }

    /// The short name of the kind of error, as the error page shows it.
    pub fn error_type(&self) -> (r: &'static str)
        ensures
            r@ == match self {
                AppError::BadRequest(_) => "bad_request"@,
                AppError::Forbidden(_) => "forbidden"@,
                AppError::NotFound(_) => "not_found"@,
                AppError::Internal(_) => "internal"@,
            },
    {
        match self {
            AppError::BadRequest(_) => "bad_request",
            AppError::Forbidden(_) => "forbidden",
            AppError::NotFound(_) => "not_found",
            AppError::Internal(_) => "internal",
        }
    }

    /// The error page of this error: a malformed request shows its message,
    /// the others a fixed description; the message is always kept as the
    /// technical detail.
    pub fn error_page(&self) -> (r: ErrorPage)
        ensures
            r.status == status_of(self),
            r.error_type@ == match self {
                AppError::BadRequest(_) => "bad_request"@,
                AppError::Forbidden(_) => "forbidden"@,
                AppError::NotFound(_) => "not_found"@,
                AppError::Internal(_) => "internal"@,
            },
            r.title@ == match self {
                AppError::BadRequest(_) => "Solicitação Inválida"@,
                AppError::Forbidden(_) => "Acesso Negado"@,
                AppError::NotFound(_) => "Arquivo Não Encontrado"@,
                AppError::Internal(_) => "Erro Interno do Servidor"@,
            },
            self is BadRequest ==> r.description@ == message_of(self),
            r.technical_details@ == "Erro técnico: "@ + message_of(self),
            r.suggestions@.len() >= 2,
    {
        let msg = self.message();
        let mut details = "Erro técnico: ".to_owned();
        details.append(msg.as_str());
        let error_type = self.error_type().to_owned();
        match self {
            AppError::BadRequest(m) => ErrorPage {
                status: 400,
                title: "Solicitação Inválida".to_owned(),
                description: m.clone(),
                error_type,
                suggestions: texts2(
                    "Verifique se os parâmetros estão corretos",
                    "Tente novamente com dados válidos",
                ),
                technical_details: details,
            },
            AppError::Forbidden(_) => ErrorPage {
                status: 403,
                title: "Acesso Negado".to_owned(),
                description: "Você não tem permissão para acessar este recurso.".to_owned(),
                error_type,
                suggestions: texts2(
                    "Verifique se você tem as permissões necessárias",
                    "Entre em contato com o administrador do sistema",
                ),
                technical_details: details,
            },
            AppError::NotFound(_) => {
                let mut suggestions = texts2(
                    "Verifique se o caminho está correto",
                    "O arquivo pode ter sido movido ou removido",
                );
                suggestions.push("Use a busca para encontrar o que procura".to_owned());
                ErrorPage {
                    status: 404,
                    title: "Arquivo Não Encontrado".to_owned(),
                    description: "O arquivo ou diretório que você está procurando não existe.".to_owned(),
                    error_type,
                    suggestions,
                    technical_details: details,
                }
            },
            AppError::Internal(_) => ErrorPage {
                status: 500,
                title: "Erro Interno do Servidor".to_owned(),
                description: "Ocorreu um erro interno. Nossa equipe foi notificada.".to_owned(),
                error_type,
                suggestions: texts2(
                    "Tente novamente em alguns instantes",
                    "Se o problema persistir, entre em contato conosco",
                ),
                technical_details: details,
            },
        }
    }

    /// The message the error was raised with.
    pub fn message(&self) -> (r: &String)
        ensures
            r@ == message_of(self),
    {
        match self {
            AppError::BadRequest(m) => m,
            AppError::Forbidden(m) => m,
            AppError::NotFound(m) => m,
            AppError::Internal(m) => m,
        }
    }
}

} // verus!
